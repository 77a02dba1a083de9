//! The line tokenizer: a trimmed line is split on single spaces, and the
//! words are folded through a small state machine. Until the start operator
//! is seen as a standalone word, words accumulate into one opaque
//! "other code" token; after it, words form directive tokens, with quoted
//! string literals rejoined across spaces.

use vstd::prelude::*;
use crate::text::{
    seq_str_view, spec_split, spec_strip_quotes, spec_trim, split_char, strip_quotes, trim_str,
    str_eq_str,
};
use crate::tokens::{
    classify_word, seq_token_view, spec_classify, token_view, GToken, LiteralType, Token,
};

verus! {

/// The tokenizer's state between words.
#[verifier::ext_equal]
pub struct TokSt {
    /// Still before the start operator: words are opaque code.
    pub other: bool,
    /// The opaque-code accumulator; each word gets one trailing space.
    pub oc: Seq<char>,
    /// Inside an unterminated quoted string literal.
    pub instr: bool,
    /// The string-literal accumulator.
    pub sbuf: Seq<char>,
    /// The tokens emitted so far.
    pub toks: Seq<GToken>,
}

/// The state the tokenizer starts a line in.
pub open spec fn tok_init() -> TokSt {
    TokSt {
        other: true,
        oc: Seq::empty(),
        instr: false,
        sbuf: Seq::empty(),
        toks: Seq::empty(),
    }
}

/// One word's effect on the tokenizer state. A word equal to the start
/// operator ends opaque mode and emits the accumulated opaque token; each
/// further occurrence emits the accumulator again. In directive mode a word
/// opening with a quote starts a string literal, one closing with a quote
/// emits the literal with all quote characters stripped, and any other word
/// is a keyword or a bare name.
pub open spec fn tok_word(st: TokSt, w: Seq<char>, op: Seq<char>) -> TokSt {
    if w == op {
        TokSt { other: false, toks: st.toks.push(GToken::Other(st.oc)), ..st }
    } else if st.other {
        TokSt { oc: st.oc + w + seq![' '], ..st }
    } else {
        let sb1 = if st.instr {
            st.sbuf + w
        } else {
            st.sbuf
        };
        let started = w.len() > 0 && w[0] == '"';
        let sb2 = if started {
            w
        } else {
            sb1
        };
        let in2 = if started {
            true
        } else {
            st.instr
        };
        if w.len() > 0 && w[w.len() - 1] == '"' {
            TokSt {
                instr: false,
                sbuf: sb2,
                toks: st.toks.push(GToken::StrLit(spec_strip_quotes(sb2))),
                ..st
            }
        } else if in2 {
            TokSt { instr: true, sbuf: sb2 + seq![' '], ..st }
        } else {
            TokSt { toks: st.toks.push(spec_classify(w)), ..st }
        }
    }
}

/// The state after folding the words from index `i` on.
pub open spec fn tok_fold(st: TokSt, words: Seq<Seq<char>>, op: Seq<char>, i: int) -> TokSt
    decreases words.len() - i,
{
    if i < 0 || i >= words.len() {
        st
    } else {
        tok_fold(tok_word(st, words[i], op), words, op, i + 1)
    }
}

/// The tokens of a finished line: a line that never saw the start operator
/// is one opaque token.
pub open spec fn tok_finish(st: TokSt) -> Seq<GToken> {
    if st.other {
        st.toks.push(GToken::Other(st.oc))
    } else {
        st.toks
    }
}

/// The tokens of a line under a given start operator.
pub open spec fn spec_tokenize(line: Seq<char>, op: Seq<char>) -> Seq<GToken> {
    tok_finish(tok_fold(tok_init(), spec_split(spec_trim(line), ' '), op, 0))
}

/// Tokenizes one line: trims it, splits it on single spaces, and folds the
/// words through the tokenizer state machine.
pub fn tokenize(line: &str, op: &str) -> (r: Vec<Token>)
    ensures
        seq_token_view(r@) == spec_tokenize(line@, op@),
{
    let trimmed = trim_str(line);
    let words = split_char(trimmed, ' ');
    let ghost wviews = seq_str_view(words@);
    let mut toks: Vec<Token> = Vec::new();
    let mut other: bool = true;
    let mut oc = String::new();
    let mut instr: bool = false;
    let mut sbuf = String::new();
    let mut i: usize = 0;
    proof {
        assert(seq_token_view(toks@) =~= Seq::<GToken>::empty());
        assert(TokSt { other, oc: oc@, instr, sbuf: sbuf@, toks: seq_token_view(toks@) }
            =~= tok_init());
    }
    while i < words.len()
        invariant
            i <= words@.len(),
            wviews == seq_str_view(words@),
            tok_fold(
                TokSt { other, oc: oc@, instr, sbuf: sbuf@, toks: seq_token_view(toks@) },
                wviews,
                op@,
                i as int,
            ) == tok_fold(tok_init(), wviews, op@, 0),
        decreases words@.len() - i,
    {
        let ghost st0 = TokSt {
            other,
            oc: oc@,
            instr,
            sbuf: sbuf@,
            toks: seq_token_view(toks@),
        };
        let w = &words[i];
        if str_eq_str(w.as_str(), op) {
            other = false;
            toks.push(Token::OtherCode(oc.clone()));
            proof {
                assert(seq_token_view(toks@) =~= st0.toks.push(GToken::Other(st0.oc)));
            }
        } else if other {
            oc.append(w.as_str());
            oc.append(" ");
            proof {
                reveal_strlit(" ");
                assert(oc@ =~= st0.oc + wviews[i as int] + seq![' ']);
            }
        } else {
            if instr {
                sbuf.append(w.as_str());
            }
            let wlen: usize = w.as_str().unicode_len();
            if wlen > 0 && w.as_str().get_char(0) == '"' {
                sbuf = String::from_str(w.as_str());
                instr = true;
            }
            if wlen > 0 && w.as_str().get_char(wlen - 1) == '"' {
                instr = false;
                let lit = strip_quotes(sbuf.as_str());
                toks.push(Token::Literal(LiteralType::StringLiteral(lit)));
                proof {
                    assert(seq_token_view(toks@) =~= tok_word(st0, wviews[i as int], op@).toks);
                }
            } else if instr {
                sbuf.append(" ");
                proof {
                    reveal_strlit(" ");
                }
            } else {
                let t = classify_word(w.as_str());
                toks.push(t);
                proof {
                    assert(seq_token_view(toks@) =~= st0.toks.push(spec_classify(
                        wviews[i as int],
                    )));
                }
            }
        }
        proof {
            let st1 = TokSt {
                other,
                oc: oc@,
                instr,
                sbuf: sbuf@,
                toks: seq_token_view(toks@),
            };
            assert(st1 =~= tok_word(st0, wviews[i as int], op@));
        }
        i = i + 1;
    }
    if other {
        let ghost st0 = TokSt {
            other,
            oc: oc@,
            instr,
            sbuf: sbuf@,
            toks: seq_token_view(toks@),
        };
        toks.push(Token::OtherCode(oc.clone()));
        proof {
            assert(seq_token_view(toks@) =~= st0.toks.push(GToken::Other(st0.oc)));
        }
    }
    toks
}

} // verus!
