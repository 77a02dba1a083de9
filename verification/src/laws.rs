//! Laws of the engine, proved once and for all inputs: opaque lines pass
//! through the tokenizer whole, a conditional opened and closed at once is
//! a no-op, nested gates demand every name, definition and removal act on
//! the table exactly, substitution is plain substring replacement, and a
//! text without directives comes back unchanged but for trimming and
//! blank-line removal.

use vstd::prelude::*;
use crate::engine::{
    all_true, keep_nonblank, spec_apply_defines, spec_lines_fold, spec_tokens, GState, LineRes,
};
use crate::table::{key_ix, tbl_contains, tbl_get, tbl_insert, tbl_remove};
use crate::text::{
    is_space, repl_from, spec_replace, spec_split, spec_trim, split_from, trim_back, trim_front,
};
use crate::tokens::{CommandType, GToken};
use crate::tokenizer::{spec_tokenize, tok_fold, tok_init, tok_word, TokSt};

verus! {

// ---------------------------------------------------------------------------
// Opaque pass-through of the tokenizer
// ---------------------------------------------------------------------------

/// The words from index `i` on, each with one trailing space.
pub open spec fn words_cat(ws: Seq<Seq<char>>, i: int) -> Seq<char>
    decreases ws.len() - i,
{
    if i < 0 || i >= ws.len() {
        Seq::empty()
    } else {
        ws[i] + seq![' '] + words_cat(ws, i + 1)
    }
}

proof fn lemma_words_cat_align(a: Seq<Seq<char>>, b: Seq<Seq<char>>, i: int, j: int)
    requires
        0 <= i <= a.len(),
        0 <= j <= b.len(),
        a.len() - i == b.len() - j,
        forall|k: int| 0 <= k < a.len() - i ==> #[trigger] a[i + k] == b[j + k],
    ensures
        words_cat(a, i) == words_cat(b, j),
    decreases a.len() - i,
{
    if i < a.len() {
        assert(a[i + 0] == b[j + 0]);
        assert forall|k: int| 0 <= k < a.len() - (i + 1) implies #[trigger] a[(i + 1) + k] == b[(j
            + 1) + k] by {
            assert(a[i + (k + 1)] == b[j + (k + 1)]);
        }
        lemma_words_cat_align(a, b, i + 1, j + 1);
    }
}

/// Splitting a text on spaces and appending the words, each with one
/// trailing space, gives the text back with one space appended.
proof fn lemma_split_rejoin(s: Seq<char>, start: int, i: int)
    requires
        0 <= start <= i <= s.len(),
    ensures
        words_cat(split_from(s, ' ', start, i), 0) == s.subrange(start, s.len() as int) + seq![
            ' ',
        ],
    decreases s.len() - i,
{
    if i >= s.len() {
        let p = s.subrange(start, s.len() as int);
        assert(words_cat(seq![p], 1) =~= Seq::<char>::empty());
        assert(words_cat(seq![p], 0) =~= p + seq![' ']);
    } else if s[i] == ' ' {
        lemma_split_rejoin(s, i + 1, i + 1);
        let p = s.subrange(start, i);
        let rest = split_from(s, ' ', i + 1, i + 1);
        let whole = seq![p] + rest;
        assert(whole[0] == p);
        lemma_words_cat_align(whole, rest, 1, 0);
        assert(p + seq![' '] + (s.subrange(i + 1, s.len() as int) + seq![' ']) =~= s.subrange(
            start,
            s.len() as int,
        ) + seq![' ']);
        assert(words_cat(whole, 0) =~= p + seq![' '] + words_cat(rest, 0));
    } else {
        lemma_split_rejoin(s, start, i + 1);
    }
}

/// Folding words that never equal the start operator only grows the opaque
/// accumulator.
proof fn lemma_fold_opaque(st: TokSt, ws: Seq<Seq<char>>, op: Seq<char>, i: int)
    requires
        0 <= i <= ws.len(),
        st.other,
        forall|k: int| i <= k < ws.len() ==> ws[k] != op,
    ensures
        tok_fold(st, ws, op, i) == (TokSt { oc: st.oc + words_cat(ws, i), ..st }),
    decreases ws.len() - i,
{
    if i >= ws.len() {
        assert(st.oc + words_cat(ws, i) =~= st.oc);
        assert(tok_fold(st, ws, op, i) =~= TokSt { oc: st.oc + words_cat(ws, i), ..st });
    } else {
        let st1 = tok_word(st, ws[i], op);
        assert(st1 == (TokSt { oc: st.oc + ws[i] + seq![' '], ..st }));
        lemma_fold_opaque(st1, ws, op, i + 1);
        assert(st1.oc + words_cat(ws, i + 1) =~= st.oc + words_cat(ws, i));
        assert(tok_fold(st, ws, op, i) =~= TokSt { oc: st.oc + words_cat(ws, i), ..st });
    }
}

/// A line on which the start operator never stands as a word tokenizes to
/// exactly one opaque token: the trimmed line with one trailing space.
pub proof fn lemma_tokenize_opaque(line: Seq<char>, op: Seq<char>)
    requires
        forall|k: int|
            0 <= k < spec_split(spec_trim(line), ' ').len() ==> spec_split(spec_trim(line), ' ')[k]
                != op,
    ensures
        spec_tokenize(line, op) == seq![GToken::Other(spec_trim(line) + seq![' '])],
{
    let words = spec_split(spec_trim(line), ' ');
    lemma_fold_opaque(tok_init(), words, op, 0);
    lemma_split_rejoin(spec_trim(line), 0, 0);
    assert(spec_trim(line).subrange(0, spec_trim(line).len() as int) =~= spec_trim(line));
    let folded = tok_fold(tok_init(), words, op, 0);
    assert(folded.oc =~= spec_trim(line) + seq![' ']);
    assert(folded.other && folded.toks == Seq::<GToken>::empty());
    assert(spec_tokenize(line, op) == folded.toks.push(GToken::Other(folded.oc)));
    assert(folded.toks.push(GToken::Other(folded.oc)) =~= seq![
        GToken::Other(spec_trim(line) + seq![' ']),
    ]);
}

// ---------------------------------------------------------------------------
// Conditional gates
// ---------------------------------------------------------------------------

/// Opening a conditional on any name and closing it at once emits nothing
/// and leaves the engine state exactly as it was, whether or not the name
/// is defined and whatever gates stand open around it.
pub proof fn lemma_gate_pair_noop(
    st: GState,
    name: Seq<char>,
    srcs: Map<Seq<char>, Map<Seq<char>, Seq<char>>>,
    op: Seq<char>,
    fuel: nat,
)
    ensures
        ({
            let r1 = spec_tokens(
                st,
                seq![GToken::Command(CommandType::IfDef), GToken::Name(name)],
                0,
                srcs,
                op,
                fuel,
            );
            let r2 = spec_tokens(
                r1.st,
                seq![GToken::Command(CommandType::Endif)],
                0,
                srcs,
                op,
                fuel,
            );
            r1.err is None && r2.err is None && r1.out == Seq::<Seq<char>>::empty() && r2.out
                == Seq::<Seq<char>>::empty() && r2.st == st
        }),
{
    let toks1 = seq![GToken::Command(CommandType::IfDef), GToken::Name(name)];
    let toks2 = seq![GToken::Command(CommandType::Endif)];
    let r1 = spec_tokens(st, toks1, 0, srcs, op, fuel);
    let pushed = st.ifs.push(tbl_contains(st.defines, name));
    let st1 = GState { ifs: pushed, ..st };
    assert(spec_tokens(st1, toks1, 2, srcs, op, fuel) == (LineRes {
        st: st1,
        out: Seq::empty(),
        err: None,
    }));
    assert(r1 == spec_tokens(st1, toks1, 2, srcs, op, fuel));
    let r2 = spec_tokens(r1.st, toks2, 0, srcs, op, fuel);
    assert(pushed.drop_last() =~= st.ifs);
    let st2 = GState { ifs: pushed.drop_last(), ..st1 };
    assert(spec_tokens(st2, toks2, 1, srcs, op, fuel) == (LineRes {
        st: st2,
        out: Seq::empty(),
        err: None,
    }));
    assert(r2 == spec_tokens(st2, toks2, 1, srcs, op, fuel));
    assert(r2.st =~= st);
}

/// Applying a table whose names are all non-empty to an empty text leaves
/// it empty.
pub proof fn lemma_apply_defines_blank(defs: Seq<(Seq<char>, Seq<char>)>, i: int)
    requires
        forall|k: int| 0 <= k < defs.len() ==> (#[trigger] defs[k]).0.len() > 0,
    ensures
        spec_apply_defines(Seq::<char>::empty(), defs, i) == Seq::<char>::empty(),
    decreases defs.len() - i,
{
    if 0 <= i < defs.len() {
        assert(spec_replace(Seq::<char>::empty(), defs[i].0, defs[i].1) == Seq::<char>::empty());
        lemma_apply_defines_blank(defs, i + 1);
    }
}

/// Interpreting lines past a prefix is interpreting the lines after it.
proof fn lemma_lines_fold_shift(
    st: GState,
    a: Seq<Seq<char>>,
    b: Seq<Seq<char>>,
    k: int,
    srcs: Map<Seq<char>, Map<Seq<char>, Seq<char>>>,
    op: Seq<char>,
    fuel: nat,
)
    requires
        0 <= k <= b.len(),
    ensures
        spec_lines_fold(st, a + b, a.len() + k, srcs, op, fuel) == spec_lines_fold(
            st,
            b,
            k,
            srcs,
            op,
            fuel,
        ),
    decreases b.len() - k,
{
    if k >= b.len() {
    } else {
        assert((a + b)[a.len() + k] == b[k]);
        let r = spec_tokens(st, spec_tokenize(b[k], op), 0, srcs, op, fuel);
        if r.err is None {
            lemma_lines_fold_shift(r.st, a, b, k + 1, srcs, op, fuel);
        }
    }
}

/// The result of interpreting one line whose tokens open or close one
/// conditional behind an empty opaque token: no error, only blank output,
/// and the given state change.
proof fn lemma_blank_directive_line(
    st: GState,
    line: Seq<char>,
    toks: Seq<GToken>,
    st1: GState,
    srcs: Map<Seq<char>, Map<Seq<char>, Seq<char>>>,
    op: Seq<char>,
    fuel: nat,
)
    requires
        spec_tokenize(line, op) == toks,
        forall|k: int| 0 <= k < st.defines.len() ==> (#[trigger] st.defines[k]).0.len() > 0,
        ({
            let r = spec_tokens(st, toks, 1, srcs, op, fuel);
            toks.len() >= 1 && toks[0] == GToken::Other(Seq::<char>::empty()) && r.err is None
                && r.st == st1 && r.out == Seq::<Seq<char>>::empty()
        }),
    ensures
        ({
            let r = spec_tokens(st, toks, 0, srcs, op, fuel);
            r.err is None && r.st == st1 && keep_nonblank(r.out, 0) == Seq::<Seq<char>>::empty()
        }),
{
    lemma_apply_defines_blank(st.defines, 0);
    let blank = spec_apply_defines(Seq::<char>::empty(), st.defines, 0);
    assert(trim_front(Seq::<char>::empty()) == Seq::<char>::empty());
    assert(spec_trim(blank).len() == 0);
    let r = spec_tokens(st, toks, 0, srcs, op, fuel);
    let rest = spec_tokens(st, toks, 1, srcs, op, fuel);
    if all_true(st.ifs) {
        assert(r == (LineRes { st: rest.st, out: seq![blank] + rest.out, err: rest.err }));
        assert(r.out =~= seq![blank]);
        assert(keep_nonblank(r.out, 1) == Seq::<Seq<char>>::empty());
        assert(keep_nonblank(r.out, 0) =~= Seq::<Seq<char>>::empty());
    } else {
        assert(r == rest);
        assert(keep_nonblank(r.out, 0) =~= Seq::<Seq<char>>::empty());
    }
}

/// A line opening a conditional on any name, followed at once by one
/// closing it, changes nothing: the text of any following lines is exactly
/// the text they give without the pair, whatever the name and whether or
/// not it is defined. The two lines must carry no opaque code of their own,
/// and the table's names must be non-empty, so that the pair emits only
/// blanks.
pub proof fn lemma_gate_pair_lines_noop(
    st: GState,
    l1: Seq<char>,
    l2: Seq<char>,
    post: Seq<Seq<char>>,
    name: Seq<char>,
    srcs: Map<Seq<char>, Map<Seq<char>, Seq<char>>>,
    op: Seq<char>,
    fuel: nat,
)
    requires
        spec_tokenize(l1, op) == seq![
            GToken::Other(Seq::<char>::empty()),
            GToken::Command(CommandType::IfDef),
            GToken::Name(name),
        ],
        spec_tokenize(l2, op) == seq![
            GToken::Other(Seq::<char>::empty()),
            GToken::Command(CommandType::Endif),
        ],
        forall|k: int| 0 <= k < st.defines.len() ==> (#[trigger] st.defines[k]).0.len() > 0,
    ensures
        spec_lines_fold(st, seq![l1, l2] + post, 0, srcs, op, fuel) == spec_lines_fold(
            st,
            post,
            0,
            srcs,
            op,
            fuel,
        ),
{
    let toks1 = spec_tokenize(l1, op);
    let toks2 = spec_tokenize(l2, op);
    let lines = seq![l1, l2] + post;
    assert(lines[0] == l1 && lines[1] == l2);
    let pushed = st.ifs.push(tbl_contains(st.defines, name));
    let st1 = GState { ifs: pushed, ..st };
    assert(spec_tokens(st1, toks1, 3, srcs, op, fuel) == (LineRes {
        st: st1,
        out: Seq::empty(),
        err: None,
    }));
    assert(spec_tokens(st, toks1, 1, srcs, op, fuel) == spec_tokens(st1, toks1, 3, srcs, op, fuel));
    lemma_blank_directive_line(st, l1, toks1, st1, srcs, op, fuel);
    assert(pushed.drop_last() =~= st.ifs);
    let st2 = GState { ifs: pushed.drop_last(), ..st1 };
    assert(st2 =~= st);
    assert(spec_tokens(st2, toks2, 2, srcs, op, fuel) == (LineRes {
        st: st2,
        out: Seq::empty(),
        err: None,
    }));
    assert(spec_tokens(st1, toks2, 1, srcs, op, fuel) == spec_tokens(st2, toks2, 2, srcs, op, fuel));
    assert(forall|k: int| 0 <= k < st1.defines.len() ==> (#[trigger] st1.defines[k]).0.len() > 0);
    lemma_blank_directive_line(st1, l2, toks2, st, srcs, op, fuel);
    lemma_lines_fold_shift(st, seq![l1, l2], post, 0, srcs, op, fuel);
    let r1 = spec_tokens(st, toks1, 0, srcs, op, fuel);
    let r2 = spec_tokens(st1, toks2, 0, srcs, op, fuel);
    let tail2 = spec_lines_fold(st, lines, 2, srcs, op, fuel);
    let tail1 = spec_lines_fold(st1, lines, 1, srcs, op, fuel);
    assert(tail1 == (LineRes {
        st: tail2.st,
        out: keep_nonblank(r2.out, 0) + tail2.out,
        err: tail2.err,
    }));
    assert(tail1 =~= tail2);
    let whole = spec_lines_fold(st, lines, 0, srcs, op, fuel);
    assert(whole == (LineRes {
        st: tail1.st,
        out: keep_nonblank(r1.out, 0) + tail1.out,
        err: tail1.err,
    }));
    assert(whole =~= spec_lines_fold(st, post, 0, srcs, op, fuel));
}

/// Under two nested conditionals, opaque content is emitted exactly when
/// both names are defined, and the define table is untouched by the gates.
pub proof fn lemma_nested_gates(
    st: GState,
    a: Seq<char>,
    b: Seq<char>,
    code: Seq<char>,
    srcs: Map<Seq<char>, Map<Seq<char>, Seq<char>>>,
    op: Seq<char>,
    fuel: nat,
)
    requires
        st.ifs.len() == 0,
    ensures
        ({
            let r1 = spec_tokens(
                st,
                seq![GToken::Command(CommandType::IfDef), GToken::Name(a)],
                0,
                srcs,
                op,
                fuel,
            );
            let r2 = spec_tokens(
                r1.st,
                seq![GToken::Command(CommandType::IfDef), GToken::Name(b)],
                0,
                srcs,
                op,
                fuel,
            );
            let r3 = spec_tokens(r2.st, seq![GToken::Other(code)], 0, srcs, op, fuel);
            r1.err is None && r2.err is None && r3.err is None && r3.st == r2.st
                && r2.st.defines == st.defines && r3.out == (
            if tbl_contains(st.defines, a) && tbl_contains(st.defines, b) {
                seq![spec_apply_defines(code, st.defines, 0)]
            } else {
                Seq::<Seq<char>>::empty()
            })
        }),
{
    let ca = tbl_contains(st.defines, a);
    let cb = tbl_contains(st.defines, b);
    let toksa = seq![GToken::Command(CommandType::IfDef), GToken::Name(a)];
    let toksb = seq![GToken::Command(CommandType::IfDef), GToken::Name(b)];
    let toksc = seq![GToken::Other(code)];
    let r1 = spec_tokens(st, toksa, 0, srcs, op, fuel);
    let st1 = GState { ifs: st.ifs.push(ca), ..st };
    assert(spec_tokens(st1, toksa, 2, srcs, op, fuel) == (LineRes {
        st: st1,
        out: Seq::empty(),
        err: None,
    }));
    assert(r1 == spec_tokens(st1, toksa, 2, srcs, op, fuel));
    let r2 = spec_tokens(r1.st, toksb, 0, srcs, op, fuel);
    let ifs2 = st.ifs.push(ca).push(cb);
    let st2 = GState { ifs: ifs2, ..st };
    assert(spec_tokens(st2, toksb, 2, srcs, op, fuel) == (LineRes {
        st: st2,
        out: Seq::empty(),
        err: None,
    }));
    assert(r2 == spec_tokens(st2, toksb, 2, srcs, op, fuel));
    assert(ifs2.len() == 2 && ifs2[0] == ca && ifs2[1] == cb);
    let r3 = spec_tokens(r2.st, toksc, 0, srcs, op, fuel);
    assert(spec_tokens(st2, toksc, 1, srcs, op, fuel) == (LineRes {
        st: st2,
        out: Seq::empty(),
        err: None,
    }));
    if ca && cb {
        assert(all_true(ifs2)) by {
            assert(forall|k: int| 0 <= k < 2 ==> ifs2[k]);
        }
        assert(r3.out =~= seq![spec_apply_defines(code, st.defines, 0)]);
    } else {
        if !ca {
            assert(!ifs2[0]);
            assert(!all_true(ifs2));
        } else {
            assert(!ifs2[1]);
            assert(!all_true(ifs2));
        }
        assert(r3 == spec_tokens(st2, toksc, 1, srcs, op, fuel));
    }
}

// ---------------------------------------------------------------------------
// The define table under definition and removal
// ---------------------------------------------------------------------------

/// No two entries share a key.
pub open spec fn tbl_unique(s: Seq<(Seq<char>, Seq<char>)>) -> bool {
    forall|i: int, j: int| 0 <= i < j < s.len() ==> (#[trigger] s[i]).0 != (#[trigger] s[j]).0
}

proof fn lemma_key_ix_first(s: Seq<(Seq<char>, Seq<char>)>, n: Seq<char>, i: int)
    requires
        0 <= i,
    ensures
        key_ix(s, n, i) == -1 ==> forall|j: int| i <= j < s.len() ==> (#[trigger] s[j]).0 != n,
        key_ix(s, n, i) != -1 ==> i <= key_ix(s, n, i) < s.len() && s[key_ix(s, n, i)].0 == n && (
        forall|j: int| i <= j < key_ix(s, n, i) ==> (#[trigger] s[j]).0 != n),
    decreases s.len() - i,
{
    if i < s.len() && s[i].0 != n {
        lemma_key_ix_first(s, n, i + 1);
    }
}

proof fn lemma_key_ix_witness(s: Seq<(Seq<char>, Seq<char>)>, n: Seq<char>, i: int, k: int)
    requires
        0 <= i <= k < s.len(),
        s[k].0 == n,
        forall|j: int| i <= j < k ==> (#[trigger] s[j]).0 != n,
    ensures
        key_ix(s, n, i) == k,
    decreases s.len() - i,
{
    if i < k {
        lemma_key_ix_witness(s, n, i + 1, k);
    }
}

proof fn lemma_key_ix_none(s: Seq<(Seq<char>, Seq<char>)>, n: Seq<char>, i: int)
    requires
        0 <= i,
        forall|j: int| i <= j < s.len() ==> (#[trigger] s[j]).0 != n,
    ensures
        key_ix(s, n, i) == -1,
    decreases s.len() - i,
{
    if i < s.len() {
        lemma_key_ix_none(s, n, i + 1);
    }
}

/// Binding a name keeps the keys unique, and afterwards the name is bound
/// to exactly the given value.
pub proof fn lemma_insert_unique(s: Seq<(Seq<char>, Seq<char>)>, n: Seq<char>, v: Seq<char>)
    requires
        tbl_unique(s),
    ensures
        tbl_unique(tbl_insert(s, n, v)),
        tbl_contains(tbl_insert(s, n, v), n),
        tbl_get(tbl_insert(s, n, v), n) == v,
{
    lemma_key_ix_first(s, n, 0);
    let t = tbl_insert(s, n, v);
    if tbl_contains(s, n) {
        let ix = key_ix(s, n, 0);
        assert(forall|j: int| 0 <= j < t.len() && j != ix ==> (#[trigger] t[j]).0 == s[j].0);
        assert(t[ix].0 == n && s[ix].0 == n);
        lemma_key_ix_witness(t, n, 0, ix);
    } else {
        assert(forall|j: int| 0 <= j < s.len() ==> (#[trigger] t[j]).0 == s[j].0 && s[j].0 != n);
        assert(t[s.len() as int].0 == n);
        lemma_key_ix_witness(t, n, 0, s.len() as int);
    }
}

/// Unbinding a name keeps the keys unique and leaves the name unbound.
pub proof fn lemma_remove_unique(s: Seq<(Seq<char>, Seq<char>)>, n: Seq<char>)
    requires
        tbl_unique(s),
    ensures
        tbl_unique(tbl_remove(s, n)),
        !tbl_contains(tbl_remove(s, n), n),
{
    lemma_key_ix_first(s, n, 0);
    let t = tbl_remove(s, n);
    if tbl_contains(s, n) {
        let ix = key_ix(s, n, 0);
        assert(forall|j: int| 0 <= j < t.len() ==> (#[trigger] t[j]) == (if j < ix {
            s[j]
        } else {
            s[j + 1]
        }));
        assert(forall|j: int| 0 <= j < t.len() ==> (#[trigger] t[j]).0 != n);
        lemma_key_ix_none(t, n, 0);
    }
}

/// The define directive's effect: afterwards the name is bound to exactly
/// the given value, nothing is emitted, and the gates are untouched.
pub proof fn lemma_define_binds(
    st: GState,
    x: Seq<char>,
    y: Seq<char>,
    srcs: Map<Seq<char>, Map<Seq<char>, Seq<char>>>,
    op: Seq<char>,
    fuel: nat,
)
    requires
        all_true(st.ifs),
        tbl_unique(st.defines),
    ensures
        ({
            let r = spec_tokens(
                st,
                seq![
                    GToken::Command(CommandType::Define),
                    GToken::Name(x),
                    GToken::StrLit(y),
                ],
                0,
                srcs,
                op,
                fuel,
            );
            r.err is None && r.out == Seq::<Seq<char>>::empty() && r.st.ifs == st.ifs
                && r.st.defines == tbl_insert(st.defines, x, y) && tbl_contains(r.st.defines, x)
                && tbl_get(r.st.defines, x) == y && tbl_unique(r.st.defines)
        }),
{
    lemma_insert_unique(st.defines, x, y);
    let toks = seq![GToken::Command(CommandType::Define), GToken::Name(x), GToken::StrLit(y)];
    let st1 = GState { defines: tbl_insert(st.defines, x, y), ..st };
    assert(spec_tokens(st1, toks, 3, srcs, op, fuel) == (LineRes {
        st: st1,
        out: Seq::empty(),
        err: None,
    }));
    assert(spec_tokens(st, toks, 0, srcs, op, fuel) == spec_tokens(st1, toks, 3, srcs, op, fuel));
}

/// The undefine directive's effect: afterwards the name is unbound, so no
/// later substitution can use it; nothing is emitted and the gates are
/// untouched.
pub proof fn lemma_undef_removes(
    st: GState,
    x: Seq<char>,
    srcs: Map<Seq<char>, Map<Seq<char>, Seq<char>>>,
    op: Seq<char>,
    fuel: nat,
)
    requires
        all_true(st.ifs),
        tbl_unique(st.defines),
    ensures
        ({
            let r = spec_tokens(
                st,
                seq![GToken::Command(CommandType::UnDefine), GToken::Name(x)],
                0,
                srcs,
                op,
                fuel,
            );
            r.err is None && r.out == Seq::<Seq<char>>::empty() && r.st.ifs == st.ifs
                && r.st.defines == tbl_remove(st.defines, x) && !tbl_contains(r.st.defines, x)
                && tbl_unique(r.st.defines)
        }),
{
    lemma_remove_unique(st.defines, x);
    let toks = seq![GToken::Command(CommandType::UnDefine), GToken::Name(x)];
    let st1 = GState { defines: tbl_remove(st.defines, x), ..st };
    assert(spec_tokens(st1, toks, 2, srcs, op, fuel) == (LineRes {
        st: st1,
        out: Seq::empty(),
        err: None,
    }));
    assert(spec_tokens(st, toks, 0, srcs, op, fuel) == spec_tokens(st1, toks, 2, srcs, op, fuel));
}

// ---------------------------------------------------------------------------
// Substitution
// ---------------------------------------------------------------------------

/// Whether the pattern occurs in `s` starting at position `i`.
pub open spec fn occurs_at(s: Seq<char>, pat: Seq<char>, i: int) -> bool {
    0 <= i && i + pat.len() <= s.len() && s.subrange(i, i + pat.len() as int) == pat
}

/// A text in which a non-empty pattern never occurs is left unchanged by
/// replacement.
pub proof fn lemma_replace_absent(s: Seq<char>, pat: Seq<char>, rep: Seq<char>, i: int)
    requires
        pat.len() > 0,
        0 <= i <= s.len(),
        forall|j: int| #![trigger occurs_at(s, pat, j)] i <= j ==> !occurs_at(s, pat, j),
    ensures
        repl_from(s, pat, rep, i) == s.subrange(i, s.len() as int),
    decreases s.len() - i,
{
    if i >= s.len() {
        assert(s.subrange(i, s.len() as int) =~= Seq::<char>::empty());
    } else {
        assert(!occurs_at(s, pat, i));
        lemma_replace_absent(s, pat, rep, i + 1);
        assert(seq![s[i]] + s.subrange(i + 1, s.len() as int) =~= s.subrange(i, s.len() as int));
    }
}

/// With a single definition in the table, applying the defines is exactly
/// one literal substring replacement, substring occurrences included.
pub proof fn lemma_single_define(s: Seq<char>, x: Seq<char>, y: Seq<char>)
    ensures
        spec_apply_defines(s, seq![(x, y)], 0) == spec_replace(s, x, y),
{
    let defs = seq![(x, y)];
    assert(spec_apply_defines(s, defs, 0) == spec_apply_defines(spec_replace(s, x, y), defs, 1));
}

// ---------------------------------------------------------------------------
// Round trip of a directive-free text
// ---------------------------------------------------------------------------

proof fn lemma_trim_front_first(s: Seq<char>)
    ensures
        trim_front(s).len() > 0 ==> !is_space(trim_front(s)[0]),
    decreases s.len(),
{
    if s.len() > 0 && is_space(s[0]) {
        lemma_trim_front_first(s.drop_first());
    }
}

proof fn lemma_trim_back_props(s: Seq<char>)
    ensures
        trim_back(s).len() <= s.len(),
        trim_back(s) == s.take(trim_back(s).len() as int),
        trim_back(s).len() > 0 ==> !is_space(trim_back(s)[trim_back(s).len() - 1]),
    decreases s.len(),
{
    if s.len() > 0 && is_space(s[s.len() - 1]) {
        lemma_trim_back_props(s.drop_last());
        assert(s.drop_last().take(trim_back(s).len() as int) =~= s.take(
            trim_back(s).len() as int,
        ));
    } else {
        assert(s.take(s.len() as int) =~= s);
    }
}

/// A trimmed text neither starts nor ends with whitespace.
pub proof fn lemma_trim_ends(s: Seq<char>)
    ensures
        spec_trim(s).len() > 0 ==> !is_space(spec_trim(s)[0]) && !is_space(
            spec_trim(s)[spec_trim(s).len() - 1],
        ),
{
    lemma_trim_front_first(s);
    lemma_trim_back_props(trim_front(s));
}

/// Appending one space to a trimmed text and trimming again gives the
/// trimmed text back.
pub proof fn lemma_trim_append_space(l: Seq<char>)
    ensures
        spec_trim(spec_trim(l) + seq![' ']) == spec_trim(l),
{
    let x = spec_trim(l);
    let y = x + seq![' '];
    if x.len() == 0 {
        assert(y =~= seq![' ']);
        assert(y.drop_first() =~= Seq::<char>::empty());
        assert(trim_front(Seq::<char>::empty()) == Seq::<char>::empty());
        assert(y.len() > 0 && is_space(y[0]));
        assert(trim_front(y) == trim_front(y.drop_first()));
        assert(trim_front(y) =~= Seq::<char>::empty());
        assert(trim_back(Seq::<char>::empty()) == Seq::<char>::empty());
    } else {
        lemma_trim_ends(l);
        assert(y[0] == x[0]);
        assert(trim_front(y) == y);
        assert(is_space(y[y.len() - 1]));
        assert(y.drop_last() =~= x);
        assert(trim_back(y) == trim_back(x));
        assert(trim_back(x) == x);
    }
}

/// What a directive-free text passes through: each line trimmed with one
/// trailing space, blank lines dropped.
pub open spec fn passthrough(lines: Seq<Seq<char>>, i: int) -> Seq<Seq<char>>
    decreases lines.len() - i,
{
    if i < 0 || i >= lines.len() {
        Seq::empty()
    } else if spec_trim(lines[i]).len() == 0 {
        passthrough(lines, i + 1)
    } else {
        seq![spec_trim(lines[i]) + seq![' ']] + passthrough(lines, i + 1)
    }
}

/// Preprocessing lines on which the start operator never stands as a word,
/// with an empty define table and every gate open, emits each line trimmed
/// with one trailing space, drops blank lines, raises no error, and leaves
/// the state exactly as it was.
pub proof fn lemma_no_directives_round_trip(
    st: GState,
    lines: Seq<Seq<char>>,
    i: int,
    srcs: Map<Seq<char>, Map<Seq<char>, Seq<char>>>,
    op: Seq<char>,
    fuel: nat,
)
    requires
        0 <= i,
        st.defines.len() == 0,
        all_true(st.ifs),
        forall|k: int, w: int|
            0 <= k < lines.len() && 0 <= w < spec_split(spec_trim(lines[k]), ' ').len()
                ==> #[trigger] spec_split(spec_trim(lines[k]), ' ')[w] != op,
    ensures
        ({
            let r = spec_lines_fold(st, lines, i, srcs, op, fuel);
            r.err is None && r.st == st && r.out == passthrough(lines, i)
        }),
    decreases lines.len() - i,
{
    if i >= lines.len() {
    } else {
        lemma_tokenize_opaque(lines[i], op);
        let x = spec_trim(lines[i]) + seq![' '];
        let toks = spec_tokenize(lines[i], op);
        assert(toks == seq![GToken::Other(x)]);
        let r0 = spec_tokens(st, toks, 0, srcs, op, fuel);
        assert(spec_apply_defines(x, st.defines, 0) == x);
        assert(spec_tokens(st, toks, 1, srcs, op, fuel) == (LineRes {
            st,
            out: Seq::empty(),
            err: None,
        }));
        assert(r0.st == st && r0.err is None);
        assert(r0.out =~= seq![x]);
        lemma_trim_append_space(lines[i]);
        lemma_no_directives_round_trip(st, lines, i + 1, srcs, op, fuel);
        let rest = spec_lines_fold(st, lines, i + 1, srcs, op, fuel);
        let r = spec_lines_fold(st, lines, i, srcs, op, fuel);
        assert(r == (LineRes {
            st: rest.st,
            out: keep_nonblank(r0.out, 0) + rest.out,
            err: rest.err,
        }));
        assert(keep_nonblank(seq![x], 1) == Seq::<Seq<char>>::empty());
        if spec_trim(lines[i]).len() == 0 {
            assert(spec_trim(x).len() == 0);
            assert(keep_nonblank(r0.out, 0) =~= Seq::<Seq<char>>::empty());
            assert(r.out =~= passthrough(lines, i));
        } else {
            assert(spec_trim(x).len() > 0);
            assert(keep_nonblank(r0.out, 0) =~= seq![x]);
            assert(r.out =~= passthrough(lines, i));
        }
    }
}

} // verus!
