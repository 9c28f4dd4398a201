//! Splitting of a comma-separated parameter list.
use vstd::prelude::*;
use vstd::string::{StrSliceExecFns, StringExecFns};

use crate::text::{char_at, strings_view};

verus! {

/// `ts` with the character `c` put in front of its first token.
pub open spec fn push_front(c: char, ts: Seq<Seq<char>>) -> Seq<Seq<char>> {
    ts.update(0, seq![c] + ts[0])
}

/// The tokens of a comma-separated list: `,` separates tokens, `\,` stands
/// for a comma and `\\` for a backslash; any other character, a lone
/// backslash included, stands for itself. No whitespace is trimmed.
pub open spec fn tokens_of(s: Seq<char>) -> Seq<Seq<char>>
    decreases s.len(),
{
    if s.len() == 0 {
        seq![Seq::<char>::empty()]
    } else if s[0] == '\\' && s.len() >= 2 && (s[1] == ',' || s[1] == '\\') {
        push_front(s[1], tokens_of(s.drop_first().drop_first()))
    } else if s[0] == ',' {
        seq![Seq::<char>::empty()] + tokens_of(s.drop_first())
    } else {
        push_front(s[0], tokens_of(s.drop_first()))
    }
}

/// A list always has at least one token.
pub proof fn lemma_tokens_nonempty(s: Seq<char>)
    ensures
        tokens_of(s).len() >= 1,
    decreases s.len(),
{
    if s.len() == 0 {
    } else if s[0] == '\\' && s.len() >= 2 && (s[1] == ',' || s[1] == '\\') {
        lemma_tokens_nonempty(s.drop_first().drop_first());
    } else if s[0] == ',' {
        lemma_tokens_nonempty(s.drop_first());
    } else {
        lemma_tokens_nonempty(s.drop_first());
    }
}

/// Finished tokens `done`, then the pending text `buf` joined to the first of
/// the tokens `rest` that the unread input yields.
spec fn glue(done: Seq<Seq<char>>, buf: Seq<char>, rest: Seq<Seq<char>>) -> Seq<Seq<char>> {
    done + rest.update(0, buf + rest[0])
}

/// Splits a comma-separated list into its tokens (see `tokens_of`).
pub fn tokenize(values: &str) -> (r: Vec<String>)
    ensures
        strings_view(r@) == tokens_of(values@),
{
    let n = values.unicode_len();
    let mut tokens: Vec<String> = Vec::new();
    let mut buf = String::new();
    let mut i: usize = 0;
    proof {
        lemma_tokens_nonempty(values@);
        assert(glue(strings_view(tokens@), buf@, tokens_of(values@.skip(0))) =~= tokens_of(values@))
            by {
            assert(values@.skip(0) =~= values@);
            assert(tokens_of(values@)[0] =~= Seq::<char>::empty() + tokens_of(values@)[0]);
        }
    }
    while i < n
        invariant
            n == values@.len(),
            i <= n,
            glue(strings_view(tokens@), buf@, tokens_of(values@.skip(i as int))) == tokens_of(
                values@,
            ),
        decreases n - i,
    {
        let ghost rest = values@.skip(i as int);
        let ghost done = strings_view(tokens@);
        let c = values.get_char(i);
        proof {
            assert(rest[0] == c);
        }
        if c == '\\' && i + 1 < n && (values.get_char(i + 1) == ',' || values.get_char(i + 1)
            == '\\') {
            let ghost b = buf@;
            buf.append(char_at(values, i + 1));
            proof {
                assert(rest[1] == values@[i + 1]);
                assert(rest.drop_first().drop_first() =~= values@.skip(i + 2));
                let t = tokens_of(values@.skip(i + 2));
                lemma_tokens_nonempty(values@.skip(i + 2));
                assert(tokens_of(rest) == push_front(rest[1], t));
                assert((b + seq![rest[1]]) + t[0] =~= b + (seq![rest[1]] + t[0]));
                assert(glue(done, b, tokens_of(rest)) =~= glue(done, buf@, t));
            }
            i = i + 2;
        } else if c == ',' {
            let ghost b = buf@;
            tokens.push(buf);
            buf = String::new();
            proof {
                assert(rest.drop_first() =~= values@.skip(i + 1));
                let t = tokens_of(values@.skip(i + 1));
                lemma_tokens_nonempty(values@.skip(i + 1));
                assert(strings_view(tokens@) =~= done.push(b));
                assert(b + Seq::<char>::empty() =~= b);
                assert(Seq::<char>::empty() + t[0] =~= t[0]);
                assert(glue(done, b, tokens_of(rest)) =~= glue(strings_view(tokens@), buf@, t));
            }
            i = i + 1;
        } else {
            let ghost b = buf@;
            buf.append(char_at(values, i));
            proof {
                assert(rest.drop_first() =~= values@.skip(i + 1));
                let t = tokens_of(values@.skip(i + 1));
                lemma_tokens_nonempty(values@.skip(i + 1));
                assert(tokens_of(rest) == push_front(c, t));
                assert((b + seq![c]) + t[0] =~= b + (seq![c] + t[0]));
                assert(glue(done, b, tokens_of(rest)) =~= glue(done, buf@, t));
            }
            i = i + 1;
        }
    }
    let ghost done = strings_view(tokens@);
    tokens.push(buf);
    proof {
        assert(values@.skip(i as int) =~= Seq::<char>::empty());
        assert(buf@ + Seq::<char>::empty() =~= buf@);
        assert(strings_view(tokens@) =~= glue(done, buf@, tokens_of(values@.skip(i as int))));
    }
    tokens
}

} // verus!
