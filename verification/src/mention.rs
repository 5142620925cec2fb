//! Recognising chat mentions inside command arguments: `<@!123>` for a
//! user and `<#456>` for a channel, each a fixed prefix, a run of decimal
//! digits, and a closing angle bracket. The leftmost occurrence wins, as
//! it does for a regular-expression search.
use vstd::prelude::*;

use crate::text::{dec_val, is_dec_digit, is_dec_digit_exec, parse_u64};

verus! {

/// Length of the maximal digit run at the start of `s`.
pub open spec fn digits_run_len(s: Seq<char>) -> nat
    decreases s.len(),
{
    if s.len() == 0 || !is_dec_digit(s[0]) {
        0
    } else {
        1 + digits_run_len(s.drop_first())
    }
}

pub proof fn lemma_digits_run_le(s: Seq<char>)
    ensures
        digits_run_len(s) <= s.len(),
    decreases s.len(),
{
    if s.len() != 0 && is_dec_digit(s[0]) {
        lemma_digits_run_le(s.drop_first());
    }
}

/// A run of `l` digits ended by a non-digit (or the end of the string) is
/// exactly the maximal digit run.
pub proof fn lemma_digits_run_of(s: Seq<char>, l: int)
    requires
        0 <= l <= s.len(),
        forall|k: int| 0 <= k < l ==> is_dec_digit(s[k]),
        l == s.len() || !is_dec_digit(s[l]),
    ensures
        digits_run_len(s) == l,
    decreases s.len(),
{
    if l > 0 {
        lemma_digits_run_of(s.drop_first(), l - 1);
    }
}

/// A mention with prefix `pre` starts exactly at the front of `s`.
pub open spec fn mention_here(s: Seq<char>, pre: Seq<char>) -> bool {
    let p = pre.len() as int;
    let d = digits_run_len(s.skip(p)) as int;
    &&& s.len() >= p
    &&& s.take(p) == pre
    &&& d >= 1
    &&& p + d < s.len()
    &&& s[p + d] == '>'
}

/// The digit run of a mention at the front of `s`.
pub open spec fn mention_digits_here(s: Seq<char>, pre: Seq<char>) -> Seq<char> {
    let p = pre.len() as int;
    s.subrange(p, p + digits_run_len(s.skip(p)) as int)
}

/// The digits of the leftmost mention in `s`, if any.
pub open spec fn first_mention(s: Seq<char>, pre: Seq<char>) -> Option<Seq<char>>
    decreases s.len(),
{
    if s.len() == 0 {
        None
    } else if mention_here(s, pre) {
        Some(mention_digits_here(s, pre))
    } else {
        first_mention(s.drop_first(), pre)
    }
}

/// Does a mention with prefix `pre` start at position `i`; if so, which
/// digits does it carry?
#[verifier::loop_isolation(false)]
fn mention_at(s: &str, i: usize, pre: &Vec<char>) -> (r: Option<Vec<char>>)
    requires
        i <= s@.len(),
    ensures
        match r {
            Some(v) => mention_here(s@.skip(i as int), pre@) && v@ == mention_digits_here(
                s@.skip(i as int),
                pre@,
            ),
            None => !mention_here(s@.skip(i as int), pre@),
        },
{
    let ghost tail = s@.skip(i as int);
    let n = s.unicode_len();
    let p = pre.len();
    let mut k: usize = 0;
    while k < p
        invariant
            n == s@.len(),
            i <= n,
            k <= p,
            p == pre@.len(),
            i + k <= n,
            forall|m: int| 0 <= m < k ==> s@.skip(i as int)[m] == pre@[m],
        decreases p - k,
    {
        if i + k >= n {
            proof {
                assert(tail.len() < pre@.len());
            }
            return None;
        }
        let c = s.get_char(i + k);
        if c != pre[k] {
            proof {
                if tail.len() >= p && tail.take(p as int) == pre@ {
                    assert(tail.take(p as int)[k as int] == pre@[k as int]);
                    assert(false);
                }
            }
            return None;
        }
        k += 1;
    }
    proof {
        if tail.len() >= p {
            assert(tail.take(p as int) =~= pre@);
        }
    }
    // Scan the digit run after the prefix.
    let start = i + p;
    if start >= n {
        proof {
            assert(tail.len() == n - i < p + 2);
            lemma_digits_run_le(tail.skip(p as int));
        }
        return None;
    }
    let mut j = start;
    let mut digs: Vec<char> = Vec::new();
    let mut stop = false;
    while !stop && j < n
        invariant
            n == s@.len(),
            start <= j <= n,
            start == i + p,
            digs@ =~= s@.subrange(start as int, j as int),
            forall|m: int| start <= m < j ==> is_dec_digit(s@[m]),
            stop ==> j < n && !is_dec_digit(s@[j as int]),
        decreases n - j, (if stop { 0int } else { 1int }),
    {
        let c = s.get_char(j);
        if is_dec_digit_exec(c) {
            digs.push(c);
            proof {
                assert(s@.subrange(start as int, j + 1) =~= s@.subrange(
                    start as int,
                    j as int,
                ).push(s@[j as int]));
            }
            j += 1;
        } else {
            stop = true;
        }
    }
    proof {
        let dtail = tail.skip(p as int);
        assert(dtail =~= s@.skip(start as int));
        lemma_digits_run_of(s@.skip(start as int), j - start);
        assert(digits_run_len(dtail) == j - start);
    }
    if digs.len() == 0 {
        return None;
    }
    if j >= n {
        return None;
    }
    let c = s.get_char(j);
    if c == '>' {
        proof {
            assert(tail[p + (j - start)] == s@[j as int]);
            assert(mention_digits_here(tail, pre@) =~= s@.subrange(start as int, j as int));
        }
        Some(digs)
    } else {
        proof {
            assert(tail[p + (j - start)] == s@[j as int]);
        }
        None
    }
}

/// Finds the leftmost mention with prefix `pre` in `s`.
pub fn find_mention(s: &str, pre: &Vec<char>) -> (r: Option<Vec<char>>)
    ensures
        r.deep_view() == first_mention(s@, pre@),
{
    let n = s.unicode_len();
    let mut i: usize = 0;
    proof {
        assert(s@.skip(0) =~= s@);
    }
    while i < n
        invariant
            n == s@.len(),
            i <= n,
            first_mention(s@.skip(i as int), pre@) == first_mention(s@, pre@),
        decreases n - i,
    {
        let found = mention_at(s, i, pre);
        match found {
            Some(digs) => {
                proof {
                    assert(digs.deep_view() =~= digs@);
                }
                return Some(digs);
            },
            None => {
                proof {
                    assert(s@.skip(i as int).drop_first() =~= s@.skip(i + 1));
                }
                i += 1;
            },
        }
    }
    proof {
        assert(s@.skip(n as int) =~= Seq::<char>::empty());
    }
    None
}

/// How a mention argument was read.
#[derive(Debug)]
pub enum MentionParse {
    /// No mention with the expected shape occurs in the argument.
    NoRef,
    /// A mention occurs but its digits exceed the identifier range.
    BadId,
    /// The identifier of the leftmost mention.
    Id(u64),
}

/// What `parse_user_mention` and `parse_channel_mention` return, stated
/// over the leftmost mention of the argument.
pub open spec fn mention_parse_of(s: Seq<char>, pre: Seq<char>) -> MentionParse {
    match first_mention(s, pre) {
        Option::None => MentionParse::NoRef,
        Option::Some(d) => if dec_val(d) > u64::MAX {
            MentionParse::BadId
        } else {
            MentionParse::Id(dec_val(d) as u64)
        },
    }
}

pub open spec fn user_mention_prefix() -> Seq<char> {
    seq!['<', '@', '!']
}

pub open spec fn channel_mention_prefix() -> Seq<char> {
    seq!['<', '#']
}

proof fn lemma_mention_digits_are_digits(s: Seq<char>, pre: Seq<char>)
    requires
        first_mention(s, pre) is Some,
    ensures
        first_mention(s, pre)->Some_0.len() > 0,
        forall|k: int|
            0 <= k < first_mention(s, pre)->Some_0.len() ==> is_dec_digit(
                #[trigger] first_mention(s, pre)->Some_0[k],
            ),
    decreases s.len(),
{
    if s.len() != 0 {
        if mention_here(s, pre) {
            let p = pre.len() as int;
            let run = digits_run_len(s.skip(p)) as int;
            lemma_digits_run_prefix_digits(s.skip(p), run);
        } else {
            lemma_mention_digits_are_digits(s.drop_first(), pre);
        }
    }
}

proof fn lemma_digits_run_prefix_digits(s: Seq<char>, l: int)
    requires
        0 <= l <= digits_run_len(s),
        digits_run_len(s) <= s.len(),
    ensures
        forall|k: int| 0 <= k < l ==> is_dec_digit(s[k]),
    decreases l,
{
    lemma_digits_run_le(s);
    if l > 0 {
        assert(is_dec_digit(s[0]));
        lemma_digits_run_prefix_digits(s.drop_first(), l - 1);
        assert(forall|k: int| 1 <= k < l ==> s[k] == s.drop_first()[k - 1]);
    }
}

fn parse_mention(s: &str, pre: &Vec<char>) -> (r: MentionParse)
    ensures
        r == mention_parse_of(s@, pre@),
{
    match find_mention(s, pre) {
        Option::None => MentionParse::NoRef,
        Option::Some(digs) => {
            proof {
                assert(digs.deep_view() =~= digs@);
                lemma_mention_digits_are_digits(s@, pre@);
            }
            match parse_u64(&digs) {
                Option::Some(v) => MentionParse::Id(v),
                Option::None => MentionParse::BadId,
            }
        },
    }
}

/// Reads the leftmost `<@!id>` user mention out of an argument token.
pub fn parse_user_mention(s: &str) -> (r: MentionParse)
    ensures
        r == mention_parse_of(s@, user_mention_prefix()),
{
    let pre: Vec<char> = vec!['<', '@', '!'];
    proof {
        assert(pre@ =~= user_mention_prefix());
    }
    parse_mention(s, &pre)
}

/// Reads the leftmost `<#id>` channel mention out of an argument token.
pub fn parse_channel_mention(s: &str) -> (r: MentionParse)
    ensures
        r == mention_parse_of(s@, channel_mention_prefix()),
{
    let pre: Vec<char> = vec!['<', '#'];
    proof {
        assert(pre@ =~= channel_mention_prefix());
    }
    parse_mention(s, &pre)
}

} // verus!
