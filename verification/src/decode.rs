//! The decoder: split source text into whitespace-delimited tokens and turn
//! each token into its opcode. Decoding happens once, up front, and fails on
//! the first invalid token, before anything is executed.

use vstd::prelude::*;
use crate::opcode::{Opcode, VmError, token_opcode};

verus! {

/// Whether `c` separates tokens: the characters with Unicode's
/// `White_Space` property.
pub open spec fn is_space_char(c: char) -> bool {
    let u = c as u32;
    ||| (0x09 <= u && u <= 0x0D)
    ||| u == 0x20
    ||| u == 0x85
    ||| u == 0xA0
    ||| u == 0x1680
    ||| (0x2000 <= u && u <= 0x200A)
    ||| u == 0x2028
    ||| u == 0x2029
    ||| u == 0x202F
    ||| u == 0x205F
    ||| u == 0x3000
}

/// Decide whether a character is whitespace.
pub fn is_space(c: char) -> (r: bool)
    ensures
        r == is_space_char(c),
{
    let u = c as u32;
    (0x09 <= u && u <= 0x0D) || u == 0x20 || u == 0x85 || u == 0xA0 || u == 0x1680 || (0x2000 <= u
        && u <= 0x200A) || u == 0x2028 || u == 0x2029 || u == 0x202F || u == 0x205F || u == 0x3000
}

/// The tokens found from position `i` on, given the partial token `cur`
/// collected just before `i`: whitespace closes `cur`, any other character
/// extends it, and the end of the text closes whatever is open.
pub open spec fn tokens_from(s: Seq<char>, i: int, cur: Seq<char>) -> Seq<Seq<char>>
    decreases s.len() - i,
{
    if i < 0 || i >= s.len() {
        if cur.len() == 0 {
            Seq::empty()
        } else {
            seq![cur]
        }
    } else if is_space_char(s[i]) {
        if cur.len() == 0 {
            tokens_from(s, i + 1, Seq::empty())
        } else {
            seq![cur] + tokens_from(s, i + 1, Seq::empty())
        }
    } else {
        tokens_from(s, i + 1, cur.push(s[i]))
    }
}

/// The whitespace-delimited tokens of a source text, in source order.
pub open spec fn tokens_of(s: Seq<char>) -> Seq<Seq<char>> {
    tokens_from(s, 0, Seq::empty())
}

/// Split a source text into its whitespace-delimited tokens.
pub fn tokenize(src: &Vec<char>) -> (r: Vec<Vec<char>>)
    ensures
        r.deep_view() == tokens_of(src@),
{
    let n = src.len();
    let mut out: Vec<Vec<char>> = Vec::new();
    let mut cur: Vec<char> = Vec::new();
    let mut i: usize = 0;
    while i < n
        invariant
            i <= n,
            n == src@.len(),
            tokens_of(src@) == out.deep_view() + tokens_from(src@, i as int, cur@),
        decreases n - i,
    {
        let ghost prev_out = out.deep_view();
        let ghost prev_cur = cur@;
        let c = src[i];
        if is_space(c) {
            if cur.len() > 0 {
                out.push(cur);
                cur = Vec::new();
                proof {
                    assert(out.deep_view() =~= prev_out + seq![prev_cur]) by {
                        assert forall|j: int| 0 <= j < out@.len() implies out@[j].deep_view() == (
                        prev_out + seq![prev_cur])[j] by {
                            if j < out@.len() - 1 {
                            } else {
                                assert(out@[j].deep_view() =~= prev_cur);
                            }
                        }
                    }
                    assert(tokens_of(src@) == out.deep_view() + tokens_from(
                        src@,
                        i + 1 as int,
                        cur@,
                    )) by {
                        assert(tokens_from(src@, i as int, prev_cur) == seq![prev_cur]
                            + tokens_from(src@, i + 1 as int, Seq::<char>::empty()));
                        assert((prev_out + (seq![prev_cur] + tokens_from(
                            src@,
                            i + 1 as int,
                            Seq::<char>::empty(),
                        ))) =~= ((prev_out + seq![prev_cur]) + tokens_from(
                            src@,
                            i + 1 as int,
                            Seq::<char>::empty(),
                        )));
                    }
                }
            } else {
                proof {
                    assert(tokens_from(src@, i as int, prev_cur) == tokens_from(
                        src@,
                        i + 1 as int,
                        Seq::<char>::empty(),
                    ));
                    assert(cur@ =~= Seq::<char>::empty());
                }
            }
        } else {
            cur.push(c);
            proof {
                assert(cur@ == prev_cur.push(src@[i as int]));
                assert(tokens_from(src@, i as int, prev_cur) == tokens_from(
                    src@,
                    i + 1 as int,
                    prev_cur.push(src@[i as int]),
                ));
            }
        }
        i = i + 1;
    }
    if cur.len() > 0 {
        let ghost prev_out = out.deep_view();
        let ghost prev_cur = cur@;
        out.push(cur);
        proof {
            assert(out.deep_view() =~= prev_out + seq![prev_cur]) by {
                assert forall|j: int| 0 <= j < out@.len() implies out@[j].deep_view() == (prev_out
                    + seq![prev_cur])[j] by {
                    if j < out@.len() - 1 {
                    } else {
                        assert(out@[j].deep_view() =~= prev_cur);
                    }
                }
            }
        }
    }
    proof {
        assert(tokens_of(src@) =~= out.deep_view());
    }
    out
}

/// Decode a token sequence into the program it spells, or report the first
/// invalid token's position.
pub fn decode_tokens(tokens: &Vec<Vec<char>>) -> (r: Result<Vec<Opcode>, VmError>)
    ensures
        match r {
            Ok(ops) => {
                &&& ops@.len() == tokens@.len()
                &&& forall|i: int|
                    0 <= i < tokens@.len() ==> #[trigger] token_opcode(tokens@[i]@) == Some(
                        ops@[i],
                    )
            },
            Err(e) => e matches VmError::InvalidInstruction(j) && (j as int) < tokens@.len()
                && token_opcode(tokens@[j as int]@) is None && (forall|i: int|
                0 <= i < j ==> #[trigger] token_opcode(tokens@[i]@) is Some),
        },
{
    let n = tokens.len();
    let mut ops: Vec<Opcode> = Vec::new();
    let mut i: usize = 0;
    while i < n
        invariant
            i <= n,
            n == tokens@.len(),
            ops@.len() == i,
            forall|k: int|
                0 <= k < i ==> #[trigger] token_opcode(tokens@[k]@) == Some(ops@[k]),
        decreases n - i,
    {
        match crate::opcode::decode_token(&tokens[i]) {
            Some(op) => {
                ops.push(op);
            },
            None => {
                return Err(VmError::InvalidInstruction(i));
            },
        }
        i = i + 1;
    }
    Ok(ops)
}

/// Decode a whole source text: tokenize, then decode each token. The
/// error, if any, names the first invalid token's position among the
/// source's tokens.
pub fn decode_source(src: &Vec<char>) -> (r: Result<Vec<Opcode>, VmError>)
    ensures
        match r {
            Ok(ops) => {
                &&& ops@.len() == tokens_of(src@).len()
                &&& forall|i: int|
                    0 <= i < ops@.len() ==> #[trigger] token_opcode(tokens_of(src@)[i]) == Some(
                        ops@[i],
                    )
            },
            Err(e) => e matches VmError::InvalidInstruction(j) && (j as int) < tokens_of(
                src@,
            ).len() && token_opcode(tokens_of(src@)[j as int]) is None && (forall|i: int|
                0 <= i < j ==> #[trigger] token_opcode(tokens_of(src@)[i]) is Some),
        },
{
    let toks = tokenize(src);
    proof {
        assert forall|i: int| 0 <= i < toks@.len() implies #[trigger] toks@[i]@ == tokens_of(src@)[i] by {
            assert(toks@[i].deep_view() =~= toks@[i]@);
            assert(toks.deep_view()[i] == toks@[i].deep_view());
        }
    }
    decode_tokens(&toks)
}

} // verus!
