//! The preprocessing engine: directive interpretation over a token
//! sequence, the conditional-inclusion stack, the define table, and the
//! recursive resolver that flattens a file and splices imported files in.
//!
//! The engine's behaviour is specified by three mutually recursive spec
//! functions — [`spec_tokens`] for one token sequence, [`spec_lines_fold`]
//! for a file's lines, and [`spec_preprocess`] for one named file — and the
//! executable methods are proved to return exactly what those functions
//! say. A fuel bound makes the recursion well founded; the engine does not
//! detect cyclic imports, and a run that nests deeper than the bound stops
//! with an error.

use vstd::prelude::*;
use crate::source::CodeSource;
use crate::table::{tbl_contains, tbl_insert, tbl_remove, StrTable};
use crate::text::{
    seq_str_view, spec_join, spec_lines, spec_replace, spec_trim, join_newline, split_lines,
    replace_in_text, str_eq_str, trim_str,
};
use crate::tokens::{seq_token_view, CommandType, GToken, LiteralType, Token};
use crate::tokenizer::{spec_tokenize, tokenize};

verus! {

/// How deep imports may nest before the run is stopped.
pub const MAX_DEPTH: u64 = 255;

/// Options an engine is built with.
#[derive(Debug, Clone)]
pub struct PreprocessorOptions {
    /// The standalone word that switches a line into directive mode.
    pub start_operator: String,
    /// Macro definitions the define table is seeded with, in order.
    pub defines: Vec<(String, String)>,
}

impl Default for PreprocessorOptions {
    /// The default options: the marker `//!` and no initial definitions.
    fn default() -> (r: Self)
        ensures
            r.start_operator@ == "//!"@,
            r.defines@ == Seq::<(String, String)>::empty(),
    {
        PreprocessorOptions { start_operator: String::from_str("//!"), defines: Vec::new() }
    }
}

/// Why a run stopped.
#[derive(Debug, Clone)]
pub enum PreprocessError {
    /// A directive's argument was missing or of the wrong kind, or a line
    /// led with a token that is no command.
    UnexpectedToken,
    /// An import named a namespace the engine does not hold.
    UnknownNamespace(String),
    /// An import named a file its namespace does not hold.
    UnknownFile(String),
    /// The error directive was reached; the message is the directive's.
    UserError(String),
    /// Imports nested deeper than [`MAX_DEPTH`].
    DepthExceeded,
}

/// The mathematical value of a [`PreprocessError`].
#[verifier::ext_equal]
pub enum GErr {
    UnexpectedToken,
    UnknownNamespace(Seq<char>),
    UnknownFile(Seq<char>),
    UserError(Seq<char>),
    DepthExceeded,
}

/// The view of an error.
pub open spec fn err_view(e: PreprocessError) -> GErr {
    match e {
        PreprocessError::UnexpectedToken => GErr::UnexpectedToken,
        PreprocessError::UnknownNamespace(s) => GErr::UnknownNamespace(s@),
        PreprocessError::UnknownFile(s) => GErr::UnknownFile(s@),
        PreprocessError::UserError(s) => GErr::UserError(s@),
        PreprocessError::DepthExceeded => GErr::DepthExceeded,
    }
}

/// The engine's mutable state: the define table's entries, the
/// conditional-inclusion stack, and the warnings gathered so far.
#[verifier::ext_equal]
pub struct GState {
    pub defines: Seq<(Seq<char>, Seq<char>)>,
    pub ifs: Seq<bool>,
    pub warnings: Seq<Seq<char>>,
}

/// The outcome of interpreting tokens or lines: the state left behind, the
/// output lines emitted before any error, and the error if one stopped the
/// run.
#[verifier::ext_equal]
pub struct LineRes {
    pub st: GState,
    pub out: Seq<Seq<char>>,
    pub err: Option<GErr>,
}

/// The outcome of resolving one named file: the state left behind, the
/// flattened text, and the error if one stopped the run.
#[verifier::ext_equal]
pub struct TextRes {
    pub st: GState,
    pub text: Seq<char>,
    pub err: Option<GErr>,
}

/// Content is emitted only when every open conditional gate is true.
pub open spec fn all_true(ifs: Seq<bool>) -> bool {
    forall|k: int| 0 <= k < ifs.len() ==> ifs[k]
}

/// The text with every define applied in table order: for each entry, every
/// occurrence of its name is replaced by its value, earlier entries first.
pub open spec fn spec_apply_defines(
    s: Seq<char>,
    defs: Seq<(Seq<char>, Seq<char>)>,
    i: int,
) -> Seq<char>
    decreases defs.len() - i,
{
    if i < 0 || i >= defs.len() {
        s
    } else {
        spec_apply_defines(spec_replace(s, defs[i].0, defs[i].1), defs, i + 1)
    }
}

/// The output lines kept by the resolver: those whose trimmed content is
/// non-empty, in order, from index `i` on.
pub open spec fn keep_nonblank(ls: Seq<Seq<char>>, i: int) -> Seq<Seq<char>>
    decreases ls.len() - i,
{
    if i < 0 || i >= ls.len() {
        Seq::empty()
    } else if spec_trim(ls[i]).len() == 0 {
        keep_nonblank(ls, i + 1)
    } else {
        seq![ls[i]] + keep_nonblank(ls, i + 1)
    }
}

/// Interprets the tokens of one line from index `i` on.
///
/// The gating commands manage the conditional stack before any gate is
/// consulted and emit nothing; every other token is skipped while some open
/// gate is false. With all gates true, a command consumes its arguments and
/// acts, an opaque token emits its text with the current defines applied,
/// and a leading literal or separator is an error. A missing or wrongly
/// shaped argument is an error, except that a gating command ignores an
/// argument that is no bare name.
pub open spec fn spec_tokens(
    st: GState,
    toks: Seq<GToken>,
    i: int,
    srcs: Map<Seq<char>, Map<Seq<char>, Seq<char>>>,
    op: Seq<char>,
    fuel: nat,
) -> LineRes
    decreases fuel, 0int, toks.len() - i,
{
    if i < 0 || i >= toks.len() {
        LineRes { st, out: Seq::empty(), err: None }
    } else {
        match toks[i] {
            GToken::Command(CommandType::IfDef) => {
                if i + 1 >= toks.len() {
                    LineRes { st, out: Seq::empty(), err: Some(GErr::UnexpectedToken) }
                } else {
                    let st1 = match toks[i + 1] {
                        GToken::Name(n) => GState {
                            ifs: st.ifs.push(tbl_contains(st.defines, n)),
                            ..st
                        },
                        _ => st,
                    };
                    spec_tokens(st1, toks, i + 2, srcs, op, fuel)
                }
            },
            GToken::Command(CommandType::IfNotDef) => {
                if i + 1 >= toks.len() {
                    LineRes { st, out: Seq::empty(), err: Some(GErr::UnexpectedToken) }
                } else {
                    let st1 = match toks[i + 1] {
                        GToken::Name(n) => GState {
                            ifs: st.ifs.push(!tbl_contains(st.defines, n)),
                            ..st
                        },
                        _ => st,
                    };
                    spec_tokens(st1, toks, i + 2, srcs, op, fuel)
                }
            },
            GToken::Command(CommandType::Endif) => {
                let st1 = if st.ifs.len() > 0 {
                    GState { ifs: st.ifs.drop_last(), ..st }
                } else {
                    st
                };
                spec_tokens(st1, toks, i + 1, srcs, op, fuel)
            },
            _ => {
                if !all_true(st.ifs) {
                    spec_tokens(st, toks, i + 1, srcs, op, fuel)
                } else {
                    match toks[i] {
                        GToken::Command(CommandType::Include) => {
                            if i + 2 >= toks.len() {
                                LineRes { st, out: Seq::empty(), err: Some(GErr::UnexpectedToken) }
                            } else {
                                match (toks[i + 1], toks[i + 2]) {
                                    (GToken::StrLit(lib), GToken::StrLit(name)) => {
                                        if fuel == 0 {
                                            LineRes {
                                                st,
                                                out: Seq::empty(),
                                                err: Some(GErr::DepthExceeded),
                                            }
                                        } else {
                                            let sub = spec_preprocess(
                                                st,
                                                srcs,
                                                lib,
                                                name,
                                                op,
                                                (fuel - 1) as nat,
                                            );
                                            if sub.err is Some {
                                                LineRes { st: sub.st, out: Seq::empty(), err: sub.err }
                                            } else {
                                                let rest = spec_tokens(
                                                    sub.st,
                                                    toks,
                                                    i + 3,
                                                    srcs,
                                                    op,
                                                    fuel,
                                                );
                                                LineRes {
                                                    st: rest.st,
                                                    out: spec_lines(sub.text) + rest.out,
                                                    err: rest.err,
                                                }
                                            }
                                        }
                                    },
                                    _ => LineRes {
                                        st,
                                        out: Seq::empty(),
                                        err: Some(GErr::UnexpectedToken),
                                    },
                                }
                            }
                        },
                        GToken::Command(CommandType::Define) => {
                            if i + 2 >= toks.len() {
                                LineRes { st, out: Seq::empty(), err: Some(GErr::UnexpectedToken) }
                            } else {
                                match (toks[i + 1], toks[i + 2]) {
                                    (GToken::Name(n), GToken::StrLit(v)) => spec_tokens(
                                        GState { defines: tbl_insert(st.defines, n, v), ..st },
                                        toks,
                                        i + 3,
                                        srcs,
                                        op,
                                        fuel,
                                    ),
                                    _ => LineRes {
                                        st,
                                        out: Seq::empty(),
                                        err: Some(GErr::UnexpectedToken),
                                    },
                                }
                            }
                        },
                        GToken::Command(CommandType::UnDefine) => {
                            if i + 1 >= toks.len() {
                                LineRes { st, out: Seq::empty(), err: Some(GErr::UnexpectedToken) }
                            } else {
                                match toks[i + 1] {
                                    GToken::Name(n) => spec_tokens(
                                        GState { defines: tbl_remove(st.defines, n), ..st },
                                        toks,
                                        i + 2,
                                        srcs,
                                        op,
                                        fuel,
                                    ),
                                    _ => LineRes {
                                        st,
                                        out: Seq::empty(),
                                        err: Some(GErr::UnexpectedToken),
                                    },
                                }
                            }
                        },
                        GToken::Command(CommandType::Error) => {
                            if i + 1 >= toks.len() {
                                LineRes { st, out: Seq::empty(), err: Some(GErr::UnexpectedToken) }
                            } else {
                                match toks[i + 1] {
                                    GToken::StrLit(m) => LineRes {
                                        st,
                                        out: Seq::empty(),
                                        err: Some(GErr::UserError(m)),
                                    },
                                    _ => LineRes {
                                        st,
                                        out: Seq::empty(),
                                        err: Some(GErr::UnexpectedToken),
                                    },
                                }
                            }
                        },
                        GToken::Command(CommandType::Warn) => {
                            if i + 1 >= toks.len() {
                                LineRes { st, out: Seq::empty(), err: Some(GErr::UnexpectedToken) }
                            } else {
                                match toks[i + 1] {
                                    GToken::StrLit(m) => spec_tokens(
                                        GState { warnings: st.warnings.push(m), ..st },
                                        toks,
                                        i + 2,
                                        srcs,
                                        op,
                                        fuel,
                                    ),
                                    _ => LineRes {
                                        st,
                                        out: Seq::empty(),
                                        err: Some(GErr::UnexpectedToken),
                                    },
                                }
                            }
                        },
                        GToken::Command(_) => spec_tokens(st, toks, i + 1, srcs, op, fuel),
                        GToken::Other(code) => {
                            let rest = spec_tokens(st, toks, i + 1, srcs, op, fuel);
                            LineRes {
                                st: rest.st,
                                out: seq![spec_apply_defines(code, st.defines, 0)] + rest.out,
                                err: rest.err,
                            }
                        },
                        _ => LineRes { st, out: Seq::empty(), err: Some(GErr::UnexpectedToken) },
                    }
                }
            },
        }
    }
}

/// Interprets a file's lines from index `i` on: each line is tokenized and
/// interpreted, and of its output only the non-blank lines are kept.
pub open spec fn spec_lines_fold(
    st: GState,
    lines: Seq<Seq<char>>,
    i: int,
    srcs: Map<Seq<char>, Map<Seq<char>, Seq<char>>>,
    op: Seq<char>,
    fuel: nat,
) -> LineRes
    decreases fuel, 2int, lines.len() - i,
{
    if i < 0 || i >= lines.len() {
        LineRes { st, out: Seq::empty(), err: None }
    } else {
        let r = spec_tokens(st, spec_tokenize(lines[i], op), 0, srcs, op, fuel);
        if r.err is Some {
            LineRes { st: r.st, out: Seq::empty(), err: r.err }
        } else {
            let rest = spec_lines_fold(r.st, lines, i + 1, srcs, op, fuel);
            LineRes { st: rest.st, out: keep_nonblank(r.out, 0) + rest.out, err: rest.err }
        }
    }
}

/// Resolves one named file: looks the namespace and the file up, interprets
/// every line, and joins the kept output lines with line feeds.
pub open spec fn spec_preprocess(
    st: GState,
    srcs: Map<Seq<char>, Map<Seq<char>, Seq<char>>>,
    lib: Seq<char>,
    name: Seq<char>,
    op: Seq<char>,
    fuel: nat,
) -> TextRes
    decreases fuel, 3int, 0int,
{
    if !srcs.contains_key(lib) {
        TextRes { st, text: Seq::empty(), err: Some(GErr::UnknownNamespace(lib)) }
    } else if !srcs[lib].contains_key(name) {
        TextRes { st, text: Seq::empty(), err: Some(GErr::UnknownFile(name)) }
    } else {
        let r = spec_lines_fold(st, spec_lines(srcs[lib][name]), 0, srcs, op, fuel);
        TextRes { st: r.st, text: spec_join(r.out), err: r.err }
    }
}

/// The index of the last namespace entry with the given name, or `-1`.
pub open spec fn ns_last_ix(s: Seq<(Seq<char>, CodeSource)>, n: Seq<char>) -> int
    decreases s.len(),
{
    if s.len() == 0 {
        -1
    } else if s[s.len() - 1].0 == n {
        s.len() - 1
    } else {
        ns_last_ix(s.drop_last(), n)
    }
}

/// The namespaces read as a map from name to file map, later registrations
/// overwriting earlier ones.
pub open spec fn ns_map(s: Seq<(Seq<char>, CodeSource)>) -> Map<
    Seq<char>,
    Map<Seq<char>, Seq<char>>,
>
    decreases s.len(),
{
    if s.len() == 0 {
        Map::empty()
    } else {
        ns_map(s.drop_last()).insert(s[s.len() - 1].0, s[s.len() - 1].1.files_map())
    }
}

proof fn lemma_ns_map(s: Seq<(Seq<char>, CodeSource)>, n: Seq<char>)
    ensures
        ns_map(s).contains_key(n) <==> ns_last_ix(s, n) != -1,
        ns_last_ix(s, n) != -1 ==> 0 <= ns_last_ix(s, n) < s.len() && s[ns_last_ix(s, n)].0 == n
            && ns_map(s)[n] == s[ns_last_ix(s, n)].1.files_map(),
    decreases s.len(),
{
    if s.len() > 0 && s[s.len() - 1].0 != n {
        lemma_ns_map(s.drop_last(), n);
    }
}

proof fn lemma_ns_prefix(s: Seq<(Seq<char>, CodeSource)>, n: Seq<char>, i: int)
    requires
        0 <= i <= s.len(),
        forall|j: int| i <= j < s.len() ==> (#[trigger] s[j]).0 != n,
    ensures
        ns_last_ix(s, n) == ns_last_ix(s.take(i), n),
    decreases s.len(),
{
    if i == s.len() {
        assert(s.take(i) =~= s);
    } else {
        assert(forall|j: int| i <= j < s.drop_last().len() ==> (#[trigger] s.drop_last()[j]).0
            != n);
        lemma_ns_prefix(s.drop_last(), n, i);
        assert(s.drop_last().take(i) =~= s.take(i));
    }
}

/// Whether every open conditional gate is true.
fn ifs_all_true(v: &Vec<bool>) -> (r: bool)
    ensures
        r == all_true(v@),
{
    let mut k: usize = 0;
    while k < v.len()
        invariant
            k <= v@.len(),
            forall|t: int| 0 <= t < k ==> v@[t],
        decreases v@.len() - k,
    {
        if !v[k] {
            return false;
        }
        k = k + 1;
    }
    true
}

/// Keeps the lines whose trimmed content is non-empty.
fn filter_nonblank(v: &Vec<String>) -> (r: Vec<String>)
    ensures
        seq_str_view(r@) == keep_nonblank(seq_str_view(v@), 0),
{
    let ghost views = seq_str_view(v@);
    let mut out: Vec<String> = Vec::new();
    let mut k: usize = 0;
    proof {
        assert(seq_str_view(out@) =~= Seq::<Seq<char>>::empty());
    }
    while k < v.len()
        invariant
            k <= v@.len(),
            views == seq_str_view(v@),
            seq_str_view(out@) + keep_nonblank(views, k as int) == keep_nonblank(views, 0),
        decreases v@.len() - k,
    {
        let t = trim_str(v[k].as_str());
        if t.unicode_len() != 0 {
            out.push(v[k].clone());
            proof {
                assert(seq_str_view(out@) =~= seq_str_view(out@.drop_last()).push(
                    views[k as int],
                ));
                assert(seq_str_view(out@) + keep_nonblank(views, k + 1) =~= seq_str_view(
                    out@.drop_last(),
                ) + (seq![views[k as int]] + keep_nonblank(views, k + 1)));
            }
        }
        k = k + 1;
    }
    proof {
        assert(seq_str_view(out@) =~= seq_str_view(out@) + keep_nonblank(views, v@.len() as int));
    }
    out
}

/// The preprocessing engine.
pub struct Preporcessor {
    /// The registered namespaces, in registration order; a name registered
    /// twice keeps its latest source set.
    pub sources: Vec<(String, CodeSource)>,
    /// The options the engine was built with.
    pub preprocessor_options: PreprocessorOptions,
    /// The define table.
    pub defines: StrTable,
    /// The conditional-inclusion stack.
    pub ifs: Vec<bool>,
    /// The messages of the warn directives executed so far.
    pub warnings: Vec<String>,
}

/// The define table an engine starts with: the seed pairs bound in order.
pub open spec fn seed_defines(
    ps: Seq<(Seq<char>, Seq<char>)>,
    i: int,
    acc: Seq<(Seq<char>, Seq<char>)>,
) -> Seq<(Seq<char>, Seq<char>)>
    decreases ps.len() - i,
{
    if i < 0 || i >= ps.len() {
        acc
    } else {
        seed_defines(ps, i + 1, tbl_insert(acc, ps[i].0, ps[i].1))
    }
}

impl Preporcessor {
    /// The engine's mutable state.
    pub open spec fn gst(self) -> GState {
        GState {
            defines: self.defines.pairs(),
            ifs: self.ifs@,
            warnings: seq_str_view(self.warnings@),
        }
    }

    /// The start operator's characters.
    pub open spec fn op_view(self) -> Seq<char> {
        self.preprocessor_options.start_operator@
    }

    /// The namespace entries, in registration order.
    pub open spec fn ns_view(self) -> Seq<(Seq<char>, CodeSource)> {
        self.sources@.map_values(|p: (String, CodeSource)| (p.0@, p.1))
    }

    /// The registered sources as a map of maps.
    pub open spec fn srcs_map(self) -> Map<Seq<char>, Map<Seq<char>, Seq<char>>> {
        ns_map(self.ns_view())
    }

    /// The sources and options are left as they were.
    pub open spec fn frame(self, other: Self) -> bool {
        self.sources == other.sources && self.preprocessor_options == other.preprocessor_options
    }

    /// Builds an engine: no namespaces, an empty conditional stack, and the
    /// define table seeded from the options in order.
    pub fn new(preprocessor_options: PreprocessorOptions) -> (r: Self)
        ensures
            r.preprocessor_options == preprocessor_options,
            r.srcs_map() == Map::<Seq<char>, Map<Seq<char>, Seq<char>>>::empty(),
            r.gst() == (GState {
                defines: seed_defines(
                    crate::table::seq_pair_view(preprocessor_options.defines@),
                    0,
                    Seq::empty(),
                ),
                ifs: Seq::<bool>::empty(),
                warnings: Seq::<Seq<char>>::empty(),
            }),
    {
        let ghost ps = crate::table::seq_pair_view(preprocessor_options.defines@);
        let mut defines = StrTable::new();
        let mut i: usize = 0;
        while i < preprocessor_options.defines.len()
            invariant
                i <= preprocessor_options.defines@.len(),
                ps == crate::table::seq_pair_view(preprocessor_options.defines@),
                seed_defines(ps, i as int, defines.pairs()) == seed_defines(ps, 0, Seq::empty()),
            decreases preprocessor_options.defines@.len() - i,
        {
            let n = preprocessor_options.defines[i].0.clone();
            let v = preprocessor_options.defines[i].1.clone();
            defines.insert_pair(n, v);
            i = i + 1;
        }
        let r = Preporcessor {
            sources: Vec::new(),
            preprocessor_options,
            defines,
            ifs: Vec::new(),
            warnings: Vec::new(),
        };
        proof {
            assert(r.ns_view() =~= Seq::<(Seq<char>, CodeSource)>::empty());
            assert(r.srcs_map() =~= Map::<Seq<char>, Map<Seq<char>, Seq<char>>>::empty());
            assert(seq_str_view(r.warnings@) =~= Seq::<Seq<char>>::empty());
            assert(r.gst() =~= GState {
                defines: seed_defines(ps, 0, Seq::empty()),
                ifs: Seq::<bool>::empty(),
                warnings: Seq::<Seq<char>>::empty(),
            });
        }
        r
    }

    /// Registers a source set under a namespace name; a name registered
    /// twice keeps the latest set.
    pub fn add_source(&mut self, name: String, code_source: CodeSource)
        ensures
            final(self).srcs_map() == old(self).srcs_map().insert(
                name@,
                code_source.files_map(),
            ),
            final(self).gst() == old(self).gst(),
            final(self).op_view() == old(self).op_view(),
            final(self).preprocessor_options == old(self).preprocessor_options,
    {
        let ghost cs = code_source;
        self.sources.push((name, code_source));
        proof {
            assert(self.ns_view().drop_last() =~= old(self).ns_view());
            assert(self.ns_view()[self.ns_view().len() - 1].1 == cs);
            assert(self.srcs_map() =~= old(self).srcs_map().insert(name@, cs.files_map()));
        }
    }

    /// Tokenizes one line under the engine's start operator.
    pub fn tokenize_line(&mut self, line: String) -> (r: Vec<Token>)
        ensures
            seq_token_view(r@) == spec_tokenize(line@, old(self).op_view()),
            *final(self) == *old(self),
    {
        tokenize(line.as_str(), self.preprocessor_options.start_operator.as_str())
    }

    /// Applies every current define to a text, in table order: for each
    /// entry, every occurrence of its name — substring occurrences
    /// included — is replaced by its value.
    pub fn replace_defines(&self, string: String) -> (r: String)
        ensures
            r@ == spec_apply_defines(string@, self.defines.pairs(), 0),
    {
        let ghost defs = self.defines.pairs();
        let ghost s0 = string@;
        let mut cur = string;
        let mut i: usize = 0;
        while i < self.defines.entries.len()
            invariant
                i <= self.defines.entries@.len(),
                defs == self.defines.pairs(),
                spec_apply_defines(cur@, defs, i as int) == spec_apply_defines(s0, defs, 0),
            decreases self.defines.entries@.len() - i,
        {
            cur = replace_in_text(
                cur.as_str(),
                self.defines.entries[i].0.as_str(),
                self.defines.entries[i].1.as_str(),
            );
            i = i + 1;
        }
        cur
    }

    /// The registered namespace of the given name, by index, if any.
    fn find_namespace(&self, lib: &str) -> (r: Option<usize>)
        ensures
            match r {
                Some(ix) => ix < self.sources@.len() && self.srcs_map().contains_key(lib@)
                    && self.srcs_map()[lib@] == self.ns_view()[ix as int].1.files_map(),
                None => !self.srcs_map().contains_key(lib@),
            },
    {
        let ghost views = self.ns_view();
        let mut i: usize = self.sources.len();
        while i > 0
            invariant
                i <= self.sources@.len(),
                views == self.ns_view(),
                forall|j: int| i <= j < views.len() ==> (#[trigger] views[j]).0 != lib@,
            decreases i,
        {
            i = i - 1;
            if str_eq_str(self.sources[i].0.as_str(), lib) {
                proof {
                    lemma_ns_prefix(views, lib@, i + 1);
                    assert(views.take(i + 1)[i as int].0 == lib@);
                    assert(ns_last_ix(views.take(i + 1), lib@) == i);
                    lemma_ns_map(views, lib@);
                }
                return Some(i);
            }
        }
        proof {
            lemma_ns_prefix(views, lib@, 0);
            assert(views.take(0) =~= Seq::<(Seq<char>, CodeSource)>::empty());
            lemma_ns_map(views, lib@);
        }
        None
    }

    /// Interprets the tokens of one line from index `i` on, mutating the
    /// engine state and returning the emitted lines.
    fn process_tokens_from(&mut self, toks: &Vec<Token>, i: usize, fuel: u64) -> (r: Result<
        Vec<String>,
        PreprocessError,
    >)
        requires
            i <= toks@.len(),
        ensures
            old(self).frame(*final(self)),
            ({
                let res = spec_tokens(
                    old(self).gst(),
                    seq_token_view(toks@),
                    i as int,
                    old(self).srcs_map(),
                    old(self).op_view(),
                    fuel as nat,
                );
                final(self).gst() == res.st && (match r {
                    Ok(v) => res.err is None && seq_str_view(v@) == res.out,
                    Err(e) => res.err == Some(err_view(e)),
                })
            }),
        decreases fuel, 0int, toks@.len() - i,
    {
        let ghost gtoks = seq_token_view(toks@);
        let ghost st0 = self.gst();
        let ghost srcs0 = self.srcs_map();
        let ghost op0 = self.op_view();
        if i >= toks.len() {
            let v: Vec<String> = Vec::new();
            proof {
                assert(seq_str_view(v@) =~= Seq::<Seq<char>>::empty());
            }
            return Ok(v);
        }
        proof {
            assert(gtoks[i as int] == crate::tokens::token_view(toks@[i as int]));
        }
        match &toks[i] {
            Token::Command(CommandType::IfDef) => {
                if toks.len() - i < 2 {
                    return Err(PreprocessError::UnexpectedToken);
                }
                match &toks[i + 1] {
                    Token::Literal(LiteralType::NameLiteral(n)) => {
                        let c = self.defines.contains_key(n.as_str());
                        self.ifs.push(c);
                        proof {
                            assert(self.gst() =~= GState {
                                ifs: st0.ifs.push(tbl_contains(st0.defines, n@)),
                                ..st0
                            });
                        }
                    },
                    _ => {},
                }
                self.process_tokens_from(toks, i + 2, fuel)
            },
            Token::Command(CommandType::IfNotDef) => {
                if toks.len() - i < 2 {
                    return Err(PreprocessError::UnexpectedToken);
                }
                match &toks[i + 1] {
                    Token::Literal(LiteralType::NameLiteral(n)) => {
                        let c = self.defines.contains_key(n.as_str());
                        self.ifs.push(!c);
                        proof {
                            assert(self.gst() =~= GState {
                                ifs: st0.ifs.push(!tbl_contains(st0.defines, n@)),
                                ..st0
                            });
                        }
                    },
                    _ => {},
                }
                self.process_tokens_from(toks, i + 2, fuel)
            },
            Token::Command(CommandType::Endif) => {
                if self.ifs.len() > 0 {
                    let _top = self.ifs.pop();
                    proof {
                        assert(self.ifs@ =~= st0.ifs.drop_last());
                        assert(self.gst() =~= GState { ifs: st0.ifs.drop_last(), ..st0 });
                    }
                }
                self.process_tokens_from(toks, i + 1, fuel)
            },
            _ => {
                if !ifs_all_true(&self.ifs) {
                    return self.process_tokens_from(toks, i + 1, fuel);
                }
                match &toks[i] {
                    Token::Command(CommandType::Include) => {
                        if toks.len() - i < 3 {
                            return Err(PreprocessError::UnexpectedToken);
                        }
                        let (libs, names) = match (&toks[i + 1], &toks[i + 2]) {
                            (
                                Token::Literal(LiteralType::StringLiteral(l)),
                                Token::Literal(LiteralType::StringLiteral(n)),
                            ) => (l.clone(), n.clone()),
                            _ => {
                                return Err(PreprocessError::UnexpectedToken);
                            },
                        };
                        if fuel == 0 {
                            return Err(PreprocessError::DepthExceeded);
                        }
                        match self.preprocess_inner(libs.as_str(), names.as_str(), fuel - 1) {
                            Err(e) => Err(e),
                            Ok(text) => {
                                let mut v = split_lines(text.as_str());
                                match self.process_tokens_from(toks, i + 3, fuel) {
                                    Err(e) => Err(e),
                                    Ok(mut rv) => {
                                        let ghost subviews = seq_str_view(v@);
                                        let ghost restviews = seq_str_view(rv@);
                                        v.append(&mut rv);
                                        proof {
                                            assert(seq_str_view(v@) =~= subviews + restviews);
                                        }
                                        Ok(v)
                                    },
                                }
                            },
                        }
                    },
                    Token::Command(CommandType::Define) => {
                        if toks.len() - i < 3 {
                            return Err(PreprocessError::UnexpectedToken);
                        }
                        match (&toks[i + 1], &toks[i + 2]) {
                            (
                                Token::Literal(LiteralType::NameLiteral(n)),
                                Token::Literal(LiteralType::StringLiteral(v)),
                            ) => {
                                self.defines.insert_pair(n.clone(), v.clone());
                                proof {
                                    assert(self.gst() =~= GState {
                                        defines: tbl_insert(st0.defines, n@, v@),
                                        ..st0
                                    });
                                }
                                self.process_tokens_from(toks, i + 3, fuel)
                            },
                            _ => Err(PreprocessError::UnexpectedToken),
                        }
                    },
                    Token::Command(CommandType::UnDefine) => {
                        if toks.len() - i < 2 {
                            return Err(PreprocessError::UnexpectedToken);
                        }
                        match &toks[i + 1] {
                            Token::Literal(LiteralType::NameLiteral(n)) => {
                                self.defines.remove_key(n.as_str());
                                proof {
                                    assert(self.gst() =~= GState {
                                        defines: tbl_remove(st0.defines, n@),
                                        ..st0
                                    });
                                }
                                self.process_tokens_from(toks, i + 2, fuel)
                            },
                            _ => Err(PreprocessError::UnexpectedToken),
                        }
                    },
                    Token::Command(CommandType::Error) => {
                        if toks.len() - i < 2 {
                            return Err(PreprocessError::UnexpectedToken);
                        }
                        match &toks[i + 1] {
                            Token::Literal(LiteralType::StringLiteral(m)) => Err(
                                PreprocessError::UserError(m.clone()),
                            ),
                            _ => Err(PreprocessError::UnexpectedToken),
                        }
                    },
                    Token::Command(CommandType::Warn) => {
                        if toks.len() - i < 2 {
                            return Err(PreprocessError::UnexpectedToken);
                        }
                        match &toks[i + 1] {
                            Token::Literal(LiteralType::StringLiteral(m)) => {
                                self.warnings.push(m.clone());
                                proof {
                                    assert(seq_str_view(self.warnings@) =~= st0.warnings.push(
                                        m@,
                                    ));
                                    assert(self.gst() =~= GState {
                                        warnings: st0.warnings.push(m@),
                                        ..st0
                                    });
                                }
                                self.process_tokens_from(toks, i + 2, fuel)
                            },
                            _ => Err(PreprocessError::UnexpectedToken),
                        }
                    },
                    Token::Command(_) => self.process_tokens_from(toks, i + 1, fuel),
                    Token::OtherCode(code) => {
                        let emitted = self.replace_defines(code.clone());
                        match self.process_tokens_from(toks, i + 1, fuel) {
                            Err(e) => Err(e),
                            Ok(rv) => {
                                let ghost restviews = seq_str_view(rv@);
                                let mut v: Vec<String> = Vec::new();
                                v.push(emitted);
                                let mut rv2 = rv;
                                v.append(&mut rv2);
                                proof {
                                    assert(seq_str_view(v@) =~= seq![
                                        spec_apply_defines(code@, st0.defines, 0),
                                    ] + restviews);
                                }
                                Ok(v)
                            },
                        }
                    },
                    Token::Literal(_) | Token::Separator(_) => Err(
                        PreprocessError::UnexpectedToken,
                    ),
                }
            },
        }
    }

    /// Tokenizes one line and interprets its tokens.
    fn process_line_inner(&mut self, line: &str, fuel: u64) -> (r: Result<
        Vec<String>,
        PreprocessError,
    >)
        ensures
            old(self).frame(*final(self)),
            ({
                let res = spec_tokens(
                    old(self).gst(),
                    spec_tokenize(line@, old(self).op_view()),
                    0,
                    old(self).srcs_map(),
                    old(self).op_view(),
                    fuel as nat,
                );
                final(self).gst() == res.st && (match r {
                    Ok(v) => res.err is None && seq_str_view(v@) == res.out,
                    Err(e) => res.err == Some(err_view(e)),
                })
            }),
        decreases fuel, 1int, 0int,
    {
        let toks = tokenize(line, self.preprocessor_options.start_operator.as_str());
        self.process_tokens_from(&toks, 0, fuel)
    }

    /// Interprets a file's lines from index `j` on, keeping non-blank
    /// output lines.
    fn process_lines_from(&mut self, lines: &Vec<String>, j: usize, fuel: u64) -> (r: Result<
        Vec<String>,
        PreprocessError,
    >)
        requires
            j <= lines@.len(),
        ensures
            old(self).frame(*final(self)),
            ({
                let res = spec_lines_fold(
                    old(self).gst(),
                    seq_str_view(lines@),
                    j as int,
                    old(self).srcs_map(),
                    old(self).op_view(),
                    fuel as nat,
                );
                final(self).gst() == res.st && (match r {
                    Ok(v) => res.err is None && seq_str_view(v@) == res.out,
                    Err(e) => res.err == Some(err_view(e)),
                })
            }),
        decreases fuel, 2int, lines@.len() - j,
    {
        if j >= lines.len() {
            let v: Vec<String> = Vec::new();
            proof {
                assert(seq_str_view(v@) =~= Seq::<Seq<char>>::empty());
            }
            return Ok(v);
        }
        match self.process_line_inner(lines[j].as_str(), fuel) {
            Err(e) => Err(e),
            Ok(v) => {
                let mut kept = filter_nonblank(&v);
                match self.process_lines_from(lines, j + 1, fuel) {
                    Err(e) => Err(e),
                    Ok(mut rv) => {
                        let ghost keptviews = seq_str_view(kept@);
                        let ghost restviews = seq_str_view(rv@);
                        kept.append(&mut rv);
                        proof {
                            assert(seq_str_view(kept@) =~= keptviews + restviews);
                        }
                        Ok(kept)
                    },
                }
            },
        }
    }

    /// Resolves one named file from the engine's sources and interprets it,
    /// bounded by the given import depth.
    fn preprocess_inner(&mut self, lib: &str, name: &str, fuel: u64) -> (r: Result<
        String,
        PreprocessError,
    >)
        ensures
            old(self).frame(*final(self)),
            ({
                let res = spec_preprocess(
                    old(self).gst(),
                    old(self).srcs_map(),
                    lib@,
                    name@,
                    old(self).op_view(),
                    fuel as nat,
                );
                final(self).gst() == res.st && (match r {
                    Ok(t) => res.err is None && t@ == res.text,
                    Err(e) => res.err == Some(err_view(e)),
                })
            }),
        decreases fuel, 3int, 0int,
    {
        let ns = match self.find_namespace(lib) {
            None => {
                return Err(PreprocessError::UnknownNamespace(String::from_str(lib)));
            },
            Some(ix) => ix,
        };
        proof {
            assert(self.ns_view()[ns as int].1 == self.sources@[ns as int].1);
        }
        let text: String = match self.sources[ns].1.lookup(name) {
            None => {
                return Err(PreprocessError::UnknownFile(String::from_str(name)));
            },
            Some(t) => t.clone(),
        };
        let lines = split_lines(text.as_str());
        match self.process_lines_from(&lines, 0, fuel) {
            Err(e) => Err(e),
            Ok(v) => Ok(join_newline(&v)),
        }
    }

    /// Interprets one line against the engine's current state and returns
    /// the emitted output lines, blank ones included. Directives on the
    /// line act on the define table and the conditional stack; an import
    /// splices the resolved file's lines into the output.
    pub fn preprocess_line(&mut self, line: String) -> (r: Result<Vec<String>, PreprocessError>)
        ensures
            old(self).frame(*final(self)),
            ({
                let res = spec_tokens(
                    old(self).gst(),
                    spec_tokenize(line@, old(self).op_view()),
                    0,
                    old(self).srcs_map(),
                    old(self).op_view(),
                    MAX_DEPTH as nat,
                );
                final(self).gst() == res.st && (match r {
                    Ok(v) => res.err is None && seq_str_view(v@) == res.out,
                    Err(e) => res.err == Some(err_view(e)),
                })
            }),
    {
        self.process_line_inner(line.as_str(), MAX_DEPTH)
    }

    /// Preprocesses the named file of the named namespace: interprets every
    /// line, drops blank output lines, and joins the rest with line feeds.
    pub fn preprocess(&mut self, lib: String, name: String) -> (r: Result<
        String,
        PreprocessError,
    >)
        ensures
            old(self).frame(*final(self)),
            ({
                let res = spec_preprocess(
                    old(self).gst(),
                    old(self).srcs_map(),
                    lib@,
                    name@,
                    old(self).op_view(),
                    MAX_DEPTH as nat,
                );
                final(self).gst() == res.st && (match r {
                    Ok(t) => res.err is None && t@ == res.text,
                    Err(e) => res.err == Some(err_view(e)),
                })
            }),
    {
        self.preprocess_inner(lib.as_str(), name.as_str(), MAX_DEPTH)
    }
}

} // verus!
