//! Verified text utilities over `&str` and `String`: whitespace trimming,
//! splitting on a separator character, joining with newlines, literal
//! substring replacement, and quote stripping. Each executable function is
//! proved equal to a spec-level definition over `Seq<char>`.

use vstd::prelude::*;

verus! {

/// The view of a sequence of strings as a sequence of character sequences.
pub open spec fn seq_str_view(v: Seq<String>) -> Seq<Seq<char>> {
    v.map_values(|x: String| x@)
}

/// Whitespace for the purpose of line trimming: space, tab, carriage
/// return and line feed.
pub open spec fn is_space(c: char) -> bool {
    c == ' ' || c == '\t' || c == '\r' || c == '\n'
}

/// Executable whitespace test, equal to [`is_space`].
pub fn is_space_c(c: char) -> (r: bool)
    ensures
        r == is_space(c),
{
    c == ' ' || c == '\t' || c == '\r' || c == '\n'
}

/// The sequence with leading whitespace removed.
pub open spec fn trim_front(s: Seq<char>) -> Seq<char>
    decreases s.len(),
{
    if s.len() > 0 && is_space(s[0]) {
        trim_front(s.drop_first())
    } else {
        s
    }
}

/// The sequence with trailing whitespace removed.
pub open spec fn trim_back(s: Seq<char>) -> Seq<char>
    decreases s.len(),
{
    if s.len() > 0 && is_space(s[s.len() - 1]) {
        trim_back(s.drop_last())
    } else {
        s
    }
}

/// The sequence with both leading and trailing whitespace removed.
pub open spec fn spec_trim(s: Seq<char>) -> Seq<char> {
    trim_back(trim_front(s))
}

proof fn lemma_trim_front_skip(s: Seq<char>, k: int)
    requires
        0 <= k <= s.len(),
        forall|j: int| 0 <= j < k ==> is_space(#[trigger] s[j]),
        k == s.len() || !is_space(s[k]),
    ensures
        trim_front(s) == s.skip(k),
    decreases s.len(),
{
    if k == 0 {
        assert(s.skip(0) =~= s);
    } else {
        assert(is_space(s[0]));
        let t = s.drop_first();
        assert(forall|j: int| 0 <= j < k - 1 ==> is_space(#[trigger] t[j]));
        lemma_trim_front_skip(t, k - 1);
        assert(t.skip(k - 1) =~= s.skip(k));
    }
}

proof fn lemma_trim_back_take(s: Seq<char>, k: int)
    requires
        0 <= k <= s.len(),
        forall|j: int| k <= j < s.len() ==> is_space(#[trigger] s[j]),
        k == 0 || !is_space(s[k - 1]),
    ensures
        trim_back(s) == s.take(k),
    decreases s.len(),
{
    if k == s.len() {
        assert(s.take(k) =~= s);
        if s.len() > 0 {
            assert(!is_space(s[s.len() - 1]));
        }
    } else {
        assert(is_space(s[s.len() - 1]));
        let t = s.drop_last();
        lemma_trim_back_take(t, k);
        assert(t.take(k) =~= s.take(k));
    }
}

/// Removes leading and trailing whitespace from a string slice.
pub fn trim_str<'a>(s: &'a str) -> (r: &'a str)
    ensures
        r@ == spec_trim(s@),
{
    let len: usize = s.unicode_len();
    let mut a: usize = 0;
    while a < len && is_space_c(s.get_char(a))
        invariant
            a <= len,
            len == s@.len(),
            forall|j: int| 0 <= j < a ==> is_space(#[trigger] s@[j]),
        decreases len - a,
    {
        a = a + 1;
    }
    let mut b: usize = len;
    while b > a && is_space_c(s.get_char(b - 1))
        invariant
            a <= b <= len,
            len == s@.len(),
            forall|j: int| b <= j < len ==> is_space(#[trigger] s@[j]),
        decreases b,
    {
        b = b - 1;
    }
    proof {
        lemma_trim_front_skip(s@, a as int);
        let t = s@.skip(a as int);
        assert(forall|j: int| b - a <= j < t.len() ==> is_space(#[trigger] t[j]));
        lemma_trim_back_take(t, b - a);
        assert(t.take(b - a) =~= s@.subrange(a as int, b as int));
    }
    s.substring_char(a, b)
}

/// Whether two string slices hold the same characters.
pub fn str_eq_str(a: &str, b: &str) -> (r: bool)
    ensures
        r == (a@ == b@),
{
    let alen: usize = a.unicode_len();
    let blen: usize = b.unicode_len();
    if alen != blen {
        return false;
    }
    let mut i: usize = 0;
    while i < alen
        invariant
            i <= alen,
            alen == a@.len(),
            alen == b@.len(),
            forall|j: int| 0 <= j < i ==> a@[j] == b@[j],
        decreases alen - i,
    {
        if a.get_char(i) != b.get_char(i) {
            return false;
        }
        i = i + 1;
    }
    proof {
        assert(a@ =~= b@);
    }
    true
}

/// The pieces of `s` between occurrences of `sep`, starting a piece at
/// `start` with the scan at `i`. Splitting never drops characters: even an
/// empty final piece is kept, as with a lone trailing separator.
pub open spec fn split_from(s: Seq<char>, sep: char, start: int, i: int) -> Seq<Seq<char>>
    decreases s.len() - i,
{
    if i < 0 || start < 0 || start > i {
        Seq::empty()
    } else if i >= s.len() {
        seq![s.subrange(start, s.len() as int)]
    } else if s[i] == sep {
        seq![s.subrange(start, i)] + split_from(s, sep, i + 1, i + 1)
    } else {
        split_from(s, sep, start, i + 1)
    }
}

/// The pieces of `s` between occurrences of `sep`.
pub open spec fn spec_split(s: Seq<char>, sep: char) -> Seq<Seq<char>> {
    split_from(s, sep, 0, 0)
}

/// Splits a string on a separator character. Consecutive separators give
/// empty pieces; the result always holds at least one piece.
pub fn split_char(s: &str, sep: char) -> (r: Vec<String>)
    ensures
        seq_str_view(r@) == spec_split(s@, sep),
{
    let len: usize = s.unicode_len();
    let mut pieces: Vec<String> = Vec::new();
    let mut start: usize = 0;
    let mut i: usize = 0;
    while i < len
        invariant
            start <= i <= len,
            len == s@.len(),
            spec_split(s@, sep) == seq_str_view(pieces@) + split_from(
                s@,
                sep,
                start as int,
                i as int,
            ),
        decreases len - i,
    {
        if s.get_char(i) == sep {
            let piece = String::from_str(s.substring_char(start, i));
            pieces.push(piece);
            proof {
                assert(seq_str_view(pieces@) =~= seq_str_view(pieces@.drop_last()).push(
                    s@.subrange(start as int, i as int),
                ));
                assert(seq_str_view(pieces@.drop_last()) + (seq![
                    s@.subrange(start as int, i as int),
                ] + split_from(s@, sep, i + 1, i + 1)) =~= seq_str_view(pieces@) + split_from(
                    s@,
                    sep,
                    i + 1,
                    i + 1,
                ));
            }
            start = i + 1;
        }
        i = i + 1;
    }
    let piece = String::from_str(s.substring_char(start, len));
    pieces.push(piece);
    proof {
        assert(seq_str_view(pieces@) =~= seq_str_view(pieces@.drop_last()).push(
            s@.subrange(start as int, len as int),
        ));
        assert(seq_str_view(pieces@.drop_last()) + seq![s@.subrange(start as int, len as int)]
            =~= seq_str_view(pieces@));
    }
    pieces
}

/// A piece of a split with one trailing carriage return removed.
pub open spec fn strip_cr(p: Seq<char>) -> Seq<char> {
    if p.len() > 0 && p[p.len() - 1] == '\r' {
        p.drop_last()
    } else {
        p
    }
}

/// The lines of a text: pieces between line feeds, without a piece for a
/// trailing line feed, and with one trailing carriage return removed from
/// each piece.
pub open spec fn spec_lines(s: Seq<char>) -> Seq<Seq<char>> {
    let raw = spec_split(s, '\n');
    let kept = if raw.len() > 0 && raw[raw.len() - 1].len() == 0 {
        raw.drop_last()
    } else {
        raw
    };
    kept.map_values(|p: Seq<char>| strip_cr(p))
}

/// Splits a text into its lines.
pub fn split_lines(s: &str) -> (r: Vec<String>)
    ensures
        seq_str_view(r@) == spec_lines(s@),
{
    let raw = split_char(s, '\n');
    let mut kept = raw;
    let n: usize = kept.len();
    if n > 0 && kept[n - 1].as_str().unicode_len() == 0 {
        let _dropped = kept.pop();
    }
    let ghost kept_views = seq_str_view(kept@);
    let mut out: Vec<String> = Vec::new();
    let mut i: usize = 0;
    while i < kept.len()
        invariant
            i <= kept.len(),
            kept_views == seq_str_view(kept@),
            seq_str_view(out@) =~= kept_views.map_values(|p: Seq<char>| strip_cr(p)).take(i as int),
        decreases kept.len() - i,
    {
        let line = &kept[i];
        let llen: usize = line.as_str().unicode_len();
        let piece: String = if llen > 0 && line.as_str().get_char(llen - 1) == '\r' {
            String::from_str(line.as_str().substring_char(0, llen - 1))
        } else {
            line.clone()
        };
        proof {
            if llen > 0 && line@[llen - 1] == '\r' {
                assert(line@.subrange(0, llen - 1) =~= strip_cr(line@));
            }
        }
        out.push(piece);
        proof {
            assert(seq_str_view(out@) =~= seq_str_view(out@.drop_last()).push(
                strip_cr(kept_views[i as int]),
            ));
            assert(kept_views.map_values(|p: Seq<char>| strip_cr(p)).take(i + 1)
                =~= kept_views.map_values(|p: Seq<char>| strip_cr(p)).take(i as int).push(
                strip_cr(kept_views[i as int]),
            ));
        }
        i = i + 1;
    }
    proof {
        if n > 0 && seq_str_view(raw@)[n - 1].len() == 0 {
            assert(spec_split(s@, '\n').drop_last() =~= kept_views);
        } else {
            assert(spec_split(s@, '\n') =~= kept_views);
        }
        assert(kept_views.map_values(|p: Seq<char>| strip_cr(p)).take(kept@.len() as int)
            =~= kept_views.map_values(|p: Seq<char>| strip_cr(p)));
        assert(seq_str_view(out@) =~= spec_lines(s@));
    }
    out
}

/// The tail of a newline join: every remaining piece preceded by one line
/// feed.
pub open spec fn join_tail(ls: Seq<Seq<char>>, i: int) -> Seq<char>
    decreases ls.len() - i,
{
    if i < 0 || i >= ls.len() {
        Seq::empty()
    } else {
        seq!['\n'] + ls[i] + join_tail(ls, i + 1)
    }
}

/// The pieces joined with single line feeds; empty when there is no piece.
pub open spec fn spec_join(ls: Seq<Seq<char>>) -> Seq<char> {
    if ls.len() == 0 {
        Seq::empty()
    } else {
        ls[0] + join_tail(ls, 1)
    }
}

/// Joins strings with single line feeds.
pub fn join_newline(v: &Vec<String>) -> (r: String)
    ensures
        r@ == spec_join(seq_str_view(v@)),
{
    let ghost views = seq_str_view(v@);
    if v.len() == 0 {
        return String::new();
    }
    let mut out: String = v[0].clone();
    let mut i: usize = 1;
    while i < v.len()
        invariant
            1 <= i <= v@.len(),
            views == seq_str_view(v@),
            out@ + join_tail(views, i as int) == spec_join(views),
        decreases v.len() - i,
    {
        proof {
            reveal_strlit("\n");
        }
        out.append("\n");
        out.append(v[i].as_str());
        proof {
            assert(out@ + join_tail(views, i + 1) =~= spec_join(views));
        }
        i = i + 1;
    }
    out
}

/// Literal substring replacement from position `i` on: at each position the
/// leftmost match of `pat` is replaced by `rep` and the scan resumes after
/// it, so matches never overlap. An empty pattern inserts `rep` at every
/// position, including both ends.
pub open spec fn repl_from(s: Seq<char>, pat: Seq<char>, rep: Seq<char>, i: int) -> Seq<char>
    decreases s.len() - i,
{
    if i < 0 {
        Seq::empty()
    } else if pat.len() == 0 {
        if i >= s.len() {
            rep
        } else {
            rep + seq![s[i]] + repl_from(s, pat, rep, i + 1)
        }
    } else if i >= s.len() {
        Seq::empty()
    } else if i + pat.len() <= s.len() && s.subrange(i, i + pat.len() as int) == pat {
        rep + repl_from(s, pat, rep, i + pat.len() as int)
    } else {
        seq![s[i]] + repl_from(s, pat, rep, i + 1)
    }
}

/// Every occurrence of `pat` in `s` replaced by `rep`.
pub open spec fn spec_replace(s: Seq<char>, pat: Seq<char>, rep: Seq<char>) -> Seq<char> {
    repl_from(s, pat, rep, 0)
}

/// Whether `pat` occurs in `s` starting at position `i`.
fn match_at(s: &str, i: usize, pat: &str) -> (r: bool)
    requires
        i + pat@.len() <= s@.len(),
        s@.len() <= usize::MAX,
    ensures
        r == (s@.subrange(i as int, i + pat@.len() as int) == pat@),
{
    let plen: usize = pat.unicode_len();
    let mut j: usize = 0;
    while j < plen
        invariant
            j <= plen,
            plen == pat@.len(),
            i + plen <= s@.len(),
            s@.len() <= usize::MAX,
            forall|k: int| 0 <= k < j ==> s@[i + k] == pat@[k],
        decreases plen - j,
    {
        if s.get_char(i + j) != pat.get_char(j) {
            proof {
                assert(s@.subrange(i as int, i + pat@.len() as int)[j as int] != pat@[j as int]);
            }
            return false;
        }
        j = j + 1;
    }
    proof {
        assert(s@.subrange(i as int, i + pat@.len() as int) =~= pat@);
    }
    true
}

/// Replaces every occurrence of `pat` in `s` by `rep`, leftmost first and
/// without overlap. With an empty pattern, `rep` is inserted at every
/// position of `s`, including both ends.
pub fn replace_in_text(s: &str, pat: &str, rep: &str) -> (r: String)
    ensures
        r@ == spec_replace(s@, pat@, rep@),
{
    let len: usize = s.unicode_len();
    let plen: usize = pat.unicode_len();
    let mut out = String::new();
    let mut i: usize = 0;
    if plen == 0 {
        while i < len
            invariant
                i <= len,
                len == s@.len(),
                pat@.len() == 0,
                spec_replace(s@, pat@, rep@) == out@ + repl_from(s@, pat@, rep@, i as int),
            decreases len - i,
        {
            out.append(rep);
            out.append(s.substring_char(i, i + 1));
            proof {
                assert(s@.subrange(i as int, i + 1) =~= seq![s@[i as int]]);
                assert(out@ + repl_from(s@, pat@, rep@, i + 1) =~= spec_replace(s@, pat@, rep@));
            }
            i = i + 1;
        }
        out.append(rep);
        proof {
            assert(out@ =~= spec_replace(s@, pat@, rep@));
        }
        return out;
    }
    while i < len
        invariant
            i <= len,
            len == s@.len(),
            plen == pat@.len(),
            plen > 0,
            spec_replace(s@, pat@, rep@) == out@ + repl_from(s@, pat@, rep@, i as int),
        decreases len - i,
    {
        if plen <= len - i && match_at(s, i, pat) {
            out.append(rep);
            proof {
                assert(out@ + repl_from(s@, pat@, rep@, i + plen) =~= spec_replace(
                    s@,
                    pat@,
                    rep@,
                ));
            }
            i = i + plen;
        } else {
            out.append(s.substring_char(i, i + 1));
            proof {
                assert(s@.subrange(i as int, i + 1) =~= seq![s@[i as int]]);
                assert(out@ + repl_from(s@, pat@, rep@, i + 1) =~= spec_replace(s@, pat@, rep@));
            }
            i = i + 1;
        }
    }
    proof {
        assert(out@ =~= spec_replace(s@, pat@, rep@));
    }
    out
}

/// The sequence with every double-quote character removed.
pub open spec fn strip_q_from(s: Seq<char>, i: int) -> Seq<char>
    decreases s.len() - i,
{
    if i < 0 || i >= s.len() {
        Seq::empty()
    } else if s[i] == '"' {
        strip_q_from(s, i + 1)
    } else {
        seq![s[i]] + strip_q_from(s, i + 1)
    }
}

/// The sequence with every double-quote character removed.
pub open spec fn spec_strip_quotes(s: Seq<char>) -> Seq<char> {
    strip_q_from(s, 0)
}

/// Removes every double-quote character from a string.
pub fn strip_quotes(s: &str) -> (r: String)
    ensures
        r@ == spec_strip_quotes(s@),
{
    let len: usize = s.unicode_len();
    let mut out = String::new();
    let mut i: usize = 0;
    while i < len
        invariant
            i <= len,
            len == s@.len(),
            spec_strip_quotes(s@) == out@ + strip_q_from(s@, i as int),
        decreases len - i,
    {
        if s.get_char(i) != '"' {
            out.append(s.substring_char(i, i + 1));
            proof {
                assert(s@.subrange(i as int, i + 1) =~= seq![s@[i as int]]);
            }
        }
        proof {
            assert(out@ + strip_q_from(s@, i + 1) =~= spec_strip_quotes(s@));
        }
        i = i + 1;
    }
    proof {
        assert(out@ =~= spec_strip_quotes(s@));
    }
    out
}

} // verus!
