//! Doubling of single quotes, the escaping applied to description text before
//! it is embedded in a SQL string literal.
//!
//! The escaping is applied exactly once, when an enrichment row is read; the
//! emitter embeds the stored text verbatim.

use vstd::prelude::*;
use vstd::string::StrSliceExecFns;
use vstd::string::StringExecFns;

verus! {

/// `s` with every single-quote character doubled.
pub open spec fn escaped(s: Seq<char>) -> Seq<char>
    decreases s.len(),
{
    if s.len() == 0 {
        Seq::empty()
    } else if s.first() == '\'' {
        seq!['\'', '\''] + escaped(s.drop_first())
    } else {
        seq![s.first()] + escaped(s.drop_first())
    }
}

/// How many times `c` occurs in `s`.
pub open spec fn count_char(s: Seq<char>, c: char) -> nat
    decreases s.len(),
{
    if s.len() == 0 {
        0
    } else {
        (if s.first() == c {
            1nat
        } else {
            0nat
        }) + count_char(s.drop_first(), c)
    }
}

/// What escaping makes of a single character.
pub proof fn lemma_escaped_singleton(x: char)
    ensures
        x == '\'' ==> escaped(seq![x]) == seq!['\'', '\''],
        x != '\'' ==> escaped(seq![x]) == seq![x],
{
    reveal_with_fuel(escaped, 3);
    assert(seq![x].drop_first() =~= Seq::<char>::empty());
    if x == '\'' {
        assert(escaped(seq![x]) =~= seq!['\'', '\'']);
    } else {
        assert(escaped(seq![x]) =~= seq![x]);
    }
}

/// Counting a character in a one- or two-character sequence.
pub proof fn lemma_count_char_singleton(x: char, c: char)
    ensures
        count_char(seq![x], c) == (if x == c {
            1nat
        } else {
            0nat
        }),
        count_char(seq![x, x], c) == (if x == c {
            2nat
        } else {
            0nat
        }),
{
    reveal_with_fuel(count_char, 4);
    assert(seq![x].drop_first() =~= Seq::<char>::empty());
    assert(seq![x, x].drop_first() =~= seq![x]);
}

/// Escaping distributes over concatenation.
pub proof fn lemma_escaped_append(a: Seq<char>, b: Seq<char>)
    ensures
        escaped(a + b) == escaped(a) + escaped(b),
    decreases a.len(),
{
    if a.len() == 0 {
        assert(a + b =~= b);
        assert(escaped(a) + escaped(b) =~= escaped(b));
    } else {
        lemma_escaped_append(a.drop_first(), b);
        assert((a + b).drop_first() =~= a.drop_first() + b);
        assert((a + b).first() == a.first());
        if a.first() == '\'' {
            assert(escaped(a + b) =~= (seq!['\'', '\''] + escaped(a.drop_first())) + escaped(b));
        } else {
            assert(escaped(a + b) =~= (seq![a.first()] + escaped(a.drop_first())) + escaped(b));
        }
    }
}

/// Character counts add up over concatenation.
pub proof fn lemma_count_char_append(a: Seq<char>, b: Seq<char>, c: char)
    ensures
        count_char(a + b, c) == count_char(a, c) + count_char(b, c),
    decreases a.len(),
{
    if a.len() == 0 {
        assert(a + b =~= b);
    } else {
        lemma_count_char_append(a.drop_first(), b, c);
        assert((a + b).drop_first() =~= a.drop_first() + b);
        assert((a + b).first() == a.first());
    }
}

/// Escaping turns each single quote into exactly two: the escaped text holds
/// twice as many single quotes as the input text, never more and never fewer.
pub proof fn lemma_escaped_quote_count(s: Seq<char>)
    ensures
        count_char(escaped(s), '\'') == 2 * count_char(s, '\''),
    decreases s.len(),
{
    if s.len() == 0 {
    } else {
        lemma_escaped_quote_count(s.drop_first());
        lemma_count_char_singleton(s.first(), '\'');
        if s.first() == '\'' {
            lemma_count_char_append(seq!['\'', '\''], escaped(s.drop_first()), '\'');
            assert(seq!['\'', '\''] =~= seq![s.first(), s.first()]);
        } else {
            lemma_count_char_append(seq![s.first()], escaped(s.drop_first()), '\'');
        }
    }
}

/// Double every single quote in `s`.
pub fn escape_single_quotes(s: &str) -> (r: String)
    ensures
        r@ == escaped(s@),
{
    let n = s.unicode_len();
    let mut r = String::new();
    let mut i: usize = 0;
    while i < n
        invariant
            n == s@.len(),
            i <= n,
            r@ == escaped(s@.take(i as int)),
        decreases n - i,
    {
        let c = s.get_char(i);
        if c == '\'' {
            r.append("''");
            proof {
                reveal_strlit("''");
            }
        } else {
            let piece = s.substring_char(i, i + 1);
            assert(piece@ =~= seq![s@[i as int]]);
            r.append(piece);
        }
        proof {
            let prefix = s@.take(i as int);
            let one = seq![s@[i as int]];
            lemma_escaped_append(prefix, one);
            lemma_escaped_singleton(s@[i as int]);
            assert(s@.take(i + 1) =~= prefix + one);
        }
        i += 1;
    }
    proof {
        assert(s@.take(n as int) =~= s@);
    }
    r
}

} // verus!
