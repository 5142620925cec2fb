//! Plain-text building blocks: whitespace tokenization, channel-name
//! validation, markdown escaping, decimal formatting and parsing, and the
//! list-joining used by reply messages.
use vstd::prelude::*;

verus! {

/// Relies on String::push: appends exactly one character to the string.
#[verifier::external_body]
pub(crate) fn push_char(s: &mut String, c: char)
    ensures
        final(s)@ == old(s)@.push(c),
{
    s.push(c)
}

/// The characters `str::split_ascii_whitespace` splits on.
pub open spec fn is_ascii_ws(c: char) -> bool {
    c == ' ' || c == '\t' || c == '\n' || c == '\r' || c == '\u{c}'
}

pub(crate) fn is_ascii_ws_exec(c: char) -> (r: bool)
    ensures
        r == is_ascii_ws(c),
{
    c == ' ' || c == '\t' || c == '\n' || c == '\r' || c == '\u{c}'
}

/// Length of the maximal non-whitespace prefix of `s`.
pub open spec fn word_len(s: Seq<char>) -> nat
    decreases s.len(),
{
    if s.len() == 0 || is_ascii_ws(s[0]) {
        0
    } else {
        1 + word_len(s.drop_first())
    }
}

pub proof fn lemma_word_len_le(s: Seq<char>)
    ensures
        word_len(s) <= s.len(),
    decreases s.len(),
{
    if s.len() != 0 && !is_ascii_ws(s[0]) {
        lemma_word_len_le(s.drop_first());
    }
}

/// A run of `l` non-whitespace characters ended by whitespace (or the end of
/// the string) is exactly the maximal non-whitespace prefix.
pub proof fn lemma_word_len_of_run(s: Seq<char>, l: int)
    requires
        0 <= l <= s.len(),
        forall|k: int| 0 <= k < l ==> !is_ascii_ws(s[k]),
        l == s.len() || is_ascii_ws(s[l]),
    ensures
        word_len(s) == l,
    decreases s.len(),
{
    if l > 0 {
        lemma_word_len_of_run(s.drop_first(), l - 1);
    }
}

/// The whitespace-delimited tokens of `s`, in order.
pub open spec fn tokens_of(s: Seq<char>) -> Seq<Seq<char>>
    decreases s.len(),
    via tokens_of_decreases
{
    if s.len() == 0 {
        seq![]
    } else if is_ascii_ws(s[0]) {
        tokens_of(s.drop_first())
    } else {
        seq![s.take(word_len(s) as int)] + tokens_of(s.skip(word_len(s) as int))
    }
}

#[via_fn]
proof fn tokens_of_decreases(s: Seq<char>) {
    lemma_word_len_le(s);
}

/// Splits `s` into its whitespace-delimited tokens, as
/// `str::split_ascii_whitespace` does.
pub fn tokenize(s: &str) -> (r: Vec<String>)
    ensures
        r.deep_view() == tokens_of(s@),
{
    let n = s.unicode_len();
    let mut out: Vec<String> = Vec::new();
    let mut i: usize = 0;
    proof {
        assert(s@.skip(0) =~= s@);
        assert(out.deep_view() + tokens_of(s@) =~= tokens_of(s@));
    }
    while i < n
        invariant
            n == s@.len(),
            i <= n,
            out.deep_view() + tokens_of(s@.skip(i as int)) == tokens_of(s@),
        decreases n - i,
    {
        let c = s.get_char(i);
        if is_ascii_ws_exec(c) {
            proof {
                assert(s@.skip(i as int).drop_first() =~= s@.skip(i + 1));
            }
            i += 1;
        } else {
            let ghost start = i as int;
            let mut word = String::new();
            let mut stop = false;
            while !stop && i < n
                invariant
                    n == s@.len(),
                    0 <= start <= i <= n,
                    word@ =~= s@.subrange(start, i as int),
                    forall|k: int| start <= k < i ==> !is_ascii_ws(s@[k]),
                    stop ==> i < n && is_ascii_ws(s@[i as int]),
                    !stop && i < n && i == start ==> !is_ascii_ws(s@[i as int]),
                decreases n - i, (if stop { 0int } else { 1int }),
            {
                let c2 = s.get_char(i);
                if is_ascii_ws_exec(c2) {
                    stop = true;
                } else {
                    push_char(&mut word, c2);
                    proof {
                        assert(s@.subrange(start, i + 1) =~= s@.subrange(start, i as int).push(
                            s@[i as int]));
                    }
                    i += 1;
                }
            }
            proof {
                let tail = s@.skip(start);
                lemma_word_len_of_run(tail, i - start);
                assert(tail.take(i - start) =~= s@.subrange(start, i as int));
                assert(tail.skip(i - start) =~= s@.skip(i as int));
                assert(tokens_of(s@.skip(start)) == seq![word@] + tokens_of(s@.skip(i as int)));
            }
            let ghost old_out = out.deep_view();
            out.push(word);
            proof {
                assert(out.deep_view() =~= old_out.push(word@));
                assert(out.deep_view() + tokens_of(s@.skip(i as int)) =~= tokens_of(s@));
            }
        }
    }
    proof {
        assert(s@.skip(n as int) =~= Seq::<char>::empty());
        assert(out.deep_view() =~= tokens_of(s@));
    }
    out
}

/// True when `s` holds a backtick or pipe, the characters rejected in
/// channel names.
pub open spec fn has_name_breaking_char(s: Seq<char>) -> bool {
    exists|i: int| 0 <= i < s.len() && (s[i] == '`' || s[i] == '|')
}

/// Accepts every name free of backtick and pipe, and rejects every other.
pub fn is_valid_game_name(name: &str) -> (r: bool)
    ensures
        r == !has_name_breaking_char(name@),
{
    let n = name.unicode_len();
    let mut i: usize = 0;
    while i < n
        invariant
            n == name@.len(),
            i <= n,
            forall|k: int| 0 <= k < i ==> !(name@[k] == '`' || name@[k] == '|'),
        decreases n - i,
    {
        let c = name.get_char(i);
        if c == '`' || c == '|' {
            return false;
        }
        i += 1;
    }
    true
}

/// The characters that markdown escaping prefixes with a backslash.
pub open spec fn is_markdown_char(c: char) -> bool {
    ||| c == '-'
    ||| c == '_'
    ||| c == '+'
    ||| c == '*'
    ||| c == '"'
    ||| c == '#'
    ||| c == '='
    ||| c == '.'
    ||| c == '\u{22c5}'
    ||| c == '\\'
    ||| c == '<'
    ||| c == '>'
    ||| c == '{'
    ||| c == '}'
}

pub(crate) fn is_markdown_char_exec(c: char) -> (r: bool)
    ensures
        r == is_markdown_char(c),
{
    c == '-' || c == '_' || c == '+' || c == '*' || c == '"' || c == '#' || c == '=' || c == '.'
        || c == '\u{22c5}' || c == '\\' || c == '<' || c == '>' || c == '{' || c == '}'
}

/// One backslash is inserted before each maximal run of markdown
/// characters; `prev` says whether the character just before `s` belongs
/// to such a run.
pub open spec fn md_escape(s: Seq<char>, prev: bool) -> Seq<char>
    decreases s.len(),
{
    if s.len() == 0 {
        seq![]
    } else {
        let c = s[0];
        let head: Seq<char> = if is_markdown_char(c) && !prev {
            seq!['\\', c]
        } else {
            seq![c]
        };
        head + md_escape(s.drop_first(), is_markdown_char(c))
    }
}

/// Escapes a raw name for chat markup, exactly once.
pub fn to_markdown_safe(name: &str) -> (r: String)
    ensures
        r@ == md_escape(name@, false),
{
    let n = name.unicode_len();
    let mut out = String::new();
    let mut prev = false;
    let mut i: usize = 0;
    proof {
        assert(name@.skip(0) =~= name@);
    }
    while i < n
        invariant
            n == name@.len(),
            i <= n,
            out@ + md_escape(name@.skip(i as int), prev) == md_escape(name@, false),
            i == 0 ==> prev == false,
            i > 0 ==> prev == is_markdown_char(name@[i - 1]),
        decreases n - i,
    {
        let c = name.get_char(i);
        proof {
            assert(name@.skip(i as int).drop_first() =~= name@.skip(i + 1));
        }
        if is_markdown_char_exec(c) && !prev {
            push_char(&mut out, '\\');
        }
        push_char(&mut out, c);
        prev = is_markdown_char_exec(c);
        i += 1;
    }
    proof {
        assert(name@.skip(n as int) =~= Seq::<char>::empty());
        assert(out@ =~= md_escape(name@, false));
    }
    out
}

// ---------------------------------------------------------------------------
// Decimal formatting and parsing
// ---------------------------------------------------------------------------

/// The decimal digit character for `d < 10`.
pub open spec fn dec_digit(d: nat) -> char {
    if d == 0 {
        '0'
    } else if d == 1 {
        '1'
    } else if d == 2 {
        '2'
    } else if d == 3 {
        '3'
    } else if d == 4 {
        '4'
    } else if d == 5 {
        '5'
    } else if d == 6 {
        '6'
    } else if d == 7 {
        '7'
    } else if d == 8 {
        '8'
    } else {
        '9'
    }
}

/// The decimal digits of `n`, most significant first.
pub open spec fn dec_of(n: nat) -> Seq<char>
    decreases n,
{
    if n < 10 {
        seq![dec_digit(n)]
    } else {
        dec_of(n / 10).push(dec_digit(n % 10))
    }
}

fn dec_digit_exec(d: u64) -> (c: char)
    requires
        d < 10,
    ensures
        c == dec_digit(d as nat),
{
    if d == 0 {
        '0'
    } else if d == 1 {
        '1'
    } else if d == 2 {
        '2'
    } else if d == 3 {
        '3'
    } else if d == 4 {
        '4'
    } else if d == 5 {
        '5'
    } else if d == 6 {
        '6'
    } else if d == 7 {
        '7'
    } else if d == 8 {
        '8'
    } else {
        '9'
    }
}

/// Writes `n` in decimal.
pub fn u64_to_dec(n: u64) -> (r: String)
    ensures
        r@ == dec_of(n as nat),
    decreases n,
{
    if n < 10 {
        let mut s = String::new();
        push_char(&mut s, dec_digit_exec(n));
        proof {
            assert(s@ =~= dec_of(n as nat));
        }
        s
    } else {
        let mut s = u64_to_dec(n / 10);
        push_char(&mut s, dec_digit_exec(n % 10));
        s
    }
}

pub open spec fn is_dec_digit(c: char) -> bool {
    '0' <= c && c <= '9'
}

pub(crate) fn is_dec_digit_exec(c: char) -> (r: bool)
    ensures
        r == is_dec_digit(c),
{
    '0' <= c && c <= '9'
}

/// The numeric value of a digit character.
pub open spec fn digit_val(c: char) -> nat {
    (c as nat - '0' as nat) as nat
}

/// The value of a digit string, most significant digit first.
pub open spec fn dec_val(s: Seq<char>) -> nat
    decreases s.len(),
{
    if s.len() == 0 {
        0
    } else {
        dec_val(s.drop_last()) * 10 + digit_val(s.last())
    }
}

/// Extending a digit string on the right never decreases its value.
pub proof fn lemma_dec_val_prefix(s: Seq<char>, i: int)
    requires
        0 <= i <= s.len(),
    ensures
        dec_val(s.take(i)) <= dec_val(s),
    decreases s.len() - i,
{
    if i < s.len() {
        lemma_dec_val_prefix(s, i + 1);
        assert(s.take(i + 1).drop_last() =~= s.take(i));
        assert(dec_val(s.take(i + 1)) == dec_val(s.take(i)) * 10 + digit_val(s.take(i + 1).last()));
    } else {
        assert(s.take(i) =~= s);
    }
}

/// Reads a decimal number as `str::parse::<u64>` does on an all-digit
/// string: `None` exactly when a character is no digit, the string is
/// empty, or the value does not fit in a `u64`.
pub fn parse_u64(digits: &Vec<char>) -> (r: Option<u64>)
    ensures
        match r {
            Some(v) => {
                &&& digits@.len() > 0
                &&& forall|i: int| 0 <= i < digits@.len() ==> is_dec_digit(digits@[i])
                &&& v as nat == dec_val(digits@)
            },
            None => {
                ||| digits@.len() == 0
                ||| exists|i: int| 0 <= i < digits@.len() && !is_dec_digit(digits@[i])
                ||| dec_val(digits@) > u64::MAX
            },
        },
{
    if digits.len() == 0 {
        return None;
    }
    let mut acc: u64 = 0;
    let mut i: usize = 0;
    while i < digits.len()
        invariant
            i <= digits@.len(),
            forall|k: int| 0 <= k < i ==> is_dec_digit(digits@[k]),
            acc as nat == dec_val(digits@.take(i as int)),
        decreases digits@.len() - i,
    {
        let c = digits[i];
        if !is_dec_digit_exec(c) {
            return None;
        }
        let d: u64 = (c as u32 as u64) - 48;
        assert(d as nat == digit_val(digits@[i as int]));
        if acc > (u64::MAX - d) / 10 {
            proof {
                assert(digits@.take(i + 1).drop_last() =~= digits@.take(i as int));
                assert(dec_val(digits@.take(i + 1)) == acc as nat * 10 + d as nat);
                assert(acc as nat * 10 + d as nat > u64::MAX) by (nonlinear_arith)
                    requires
                        acc > (u64::MAX - d) / 10,
                        d < 10,
                ;
                lemma_dec_val_prefix(digits@, i + 1);
            }
            return None;
        }
        proof {
            assert(digits@.take(i + 1).drop_last() =~= digits@.take(i as int));
            assert(acc as nat * 10 + d as nat <= u64::MAX) by (nonlinear_arith)
                requires
                    acc <= (u64::MAX - d) / 10,
                    d < 10,
            ;
        }
        acc = acc * 10 + d;
        i += 1;
    }
    proof {
        assert(digits@.take(digits@.len() as int) =~= digits@);
    }
    Some(acc)
}

// ---------------------------------------------------------------------------
// Joining lists for reply messages
// ---------------------------------------------------------------------------

/// `a, b, c` — every element separated by a comma.
pub open spec fn comma_join(items: Seq<Seq<char>>) -> Seq<char>
    decreases items.len(),
{
    if items.len() == 0 {
        seq![]
    } else if items.len() == 1 {
        items[0]
    } else {
        comma_join(items.drop_last()) + ", "@ + items.last()
    }
}

/// `a, b and c` — the final element joined by `and`, the rest by commas.
pub open spec fn listed(items: Seq<Seq<char>>) -> Seq<char> {
    if items.len() <= 1 {
        comma_join(items)
    } else {
        comma_join(items.drop_last()) + " and "@ + items.last()
    }
}

/// Renders a list of phrases for a reply: commas between phrases, `and`
/// before the final one.
pub fn list_strings(strings: Vec<String>) -> (r: String)
    ensures
        r@ == listed(strings.deep_view()),
{
    let mut result = String::new();
    let n = strings.len();
    let mut i: usize = 0;
    while i < n
        invariant
            n == strings@.len(),
            i <= n,
            i < n || n == 0 ==> result@ == comma_join(strings.deep_view().take(i as int)),
            i == n && n > 0 ==> result@ == listed(strings.deep_view()),
        decreases n - i,
    {
        if i > 0 {
            if i == n - 1 {
                result.append(" and ");
            } else {
                result.append(", ");
            }
        }
        result.append(strings[i].as_str());
        proof {
            let items = strings.deep_view();
            assert(items.take(i + 1).drop_last() =~= items.take(i as int));
            assert(items.take(i + 1).last() == items[i as int]);
            if i + 1 == n {
                assert(items.take(n as int) =~= items);
                if n > 1 {
                    assert(items.drop_last() =~= items.take(i as int));
                }
            }
        }
        i += 1;
    }
    result
}

/// Joins tokens back together with single spaces, as the command handlers
/// do to recover a multi-word name.
pub open spec fn space_join(items: Seq<Seq<char>>) -> Seq<char>
    decreases items.len(),
{
    if items.len() == 0 {
        seq![]
    } else if items.len() == 1 {
        items[0]
    } else {
        space_join(items.drop_last()) + " "@ + items.last()
    }
}

pub fn join_with_spaces(strings: &Vec<String>) -> (r: String)
    ensures
        r@ == space_join(strings.deep_view()),
{
    let mut result = String::new();
    let n = strings.len();
    let mut i: usize = 0;
    while i < n
        invariant
            n == strings@.len(),
            i <= n,
            result@ == space_join(strings.deep_view().take(i as int)),
        decreases n - i,
    {
        if i > 0 {
            result.append(" ");
        }
        result.append(strings[i].as_str());
        proof {
            let items = strings.deep_view();
            assert(items.take(i + 1).drop_last() =~= items.take(i as int));
            assert(items.take(i + 1).last() == items[i as int]);
        }
        i += 1;
    }
    proof {
        assert(strings.deep_view().take(n as int) =~= strings.deep_view());
    }
    result
}

/// Joins strings with `, `, the shape of the all-ideas listing.
pub fn join_with_commas(strings: &Vec<String>) -> (r: String)
    ensures
        r@ == comma_join(strings.deep_view()),
{
    let mut result = String::new();
    let n = strings.len();
    let mut i: usize = 0;
    while i < n
        invariant
            n == strings@.len(),
            i <= n,
            result@ == comma_join(strings.deep_view().take(i as int)),
        decreases n - i,
    {
        if i > 0 {
            result.append(", ");
        }
        result.append(strings[i].as_str());
        proof {
            let items = strings.deep_view();
            assert(items.take(i + 1).drop_last() =~= items.take(i as int));
            assert(items.take(i + 1).last() == items[i as int]);
        }
        i += 1;
    }
    proof {
        assert(strings.deep_view().take(n as int) =~= strings.deep_view());
    }
    result
}

/// Character-for-character string equality.
pub fn str_eq(a: &str, b: &str) -> (r: bool)
    ensures
        r == (a@ == b@),
{
    let na = a.unicode_len();
    let nb = b.unicode_len();
    if na != nb {
        return false;
    }
    let mut i: usize = 0;
    while i < na
        invariant
            na == a@.len(),
            na == b@.len(),
            i <= na,
            forall|k: int| 0 <= k < i ==> a@[k] == b@[k],
        decreases na - i,
    {
        if a.get_char(i) != b.get_char(i) {
            return false;
        }
        i += 1;
    }
    proof {
        assert(a@ =~= b@);
    }
    true
}

/// The characters of `s`, one vector element each.
pub fn str_to_chars(s: &str) -> (r: Vec<char>)
    ensures
        r@ == s@,
{
    let n = s.unicode_len();
    let mut out: Vec<char> = Vec::new();
    let mut i: usize = 0;
    while i < n
        invariant
            n == s@.len(),
            i <= n,
            out@ =~= s@.take(i as int),
        decreases n - i,
    {
        out.push(s.get_char(i));
        proof {
            assert(s@.take(i + 1) =~= s@.take(i as int).push(s@[i as int]));
        }
        i += 1;
    }
    proof {
        assert(s@.take(n as int) =~= s@);
    }
    out
}

/// Every token of a string is nonempty.
pub proof fn lemma_tokens_nonempty(s: Seq<char>)
    ensures
        forall|t: int| 0 <= t < tokens_of(s).len() ==> (#[trigger] tokens_of(s)[t]).len() > 0,
    decreases s.len(),
{
    if s.len() == 0 {
    } else if is_ascii_ws(s[0]) {
        lemma_tokens_nonempty(s.drop_first());
        assert(tokens_of(s) == tokens_of(s.drop_first()));
    } else {
        lemma_word_len_le(s);
        lemma_tokens_nonempty(s.skip(word_len(s) as int));
        assert(word_len(s) >= 1);
        assert forall|t: int| 0 <= t < tokens_of(s).len() implies (#[trigger] tokens_of(
            s,
        )[t]).len() > 0 by {
            if t == 0 {
                assert(tokens_of(s)[0] == s.take(word_len(s) as int));
            } else {
                assert(tokens_of(s)[t] == tokens_of(s.skip(word_len(s) as int))[t - 1]);
            }
        }
    }
}


/// The digit character of a digit's value is the character itself.
pub proof fn lemma_dec_digit_inverse(c: char)
    requires
        is_dec_digit(c),
    ensures
        digit_val(c) < 10,
        dec_digit(digit_val(c)) == c,
{
    assert(48 <= c as nat <= 57);
}

/// A digit string with no leading zero has a positive value.
pub proof fn lemma_dec_val_pos(s: Seq<char>)
    requires
        s.len() >= 1,
        forall|i: int| 0 <= i < s.len() ==> is_dec_digit(#[trigger] s[i]),
        s[0] != '0',
    ensures
        dec_val(s) >= 1,
    decreases s.len(),
{
    if s.len() == 1 {
        assert(48 <= s[0] as nat <= 57);
        assert(s[0] as nat != 48);
    } else {
        lemma_dec_val_pos(s.drop_last());
    }
}

/// Formatting is the inverse of reading, for digit strings without a
/// leading zero.
pub proof fn lemma_dec_of_val(s: Seq<char>)
    requires
        s.len() >= 1,
        forall|i: int| 0 <= i < s.len() ==> is_dec_digit(#[trigger] s[i]),
        s.len() > 1 ==> s[0] != '0',
    ensures
        dec_of(dec_val(s)) == s,
    decreases s.len(),
{
    if s.len() == 1 {
        lemma_dec_digit_inverse(s[0]);
        assert(s.drop_last() =~= Seq::<char>::empty());
        assert(dec_val(Seq::<char>::empty()) == 0);
        assert(dec_val(s) == digit_val(s[0]));
        assert(dec_of(dec_val(s)) =~= s);
    } else {
        let dd = s.drop_last();
        let x = digit_val(s.last());
        lemma_dec_digit_inverse(s.last());
        lemma_dec_val_pos(dd);
        let v = dec_val(s);
        assert(v == dec_val(dd) * 10 + x);
        assert(v >= 10) by (nonlinear_arith)
            requires
                v == dec_val(dd) * 10 + x,
                dec_val(dd) >= 1,
                x >= 0,
        ;
        assert(v / 10 == dec_val(dd) && v % 10 == x) by (nonlinear_arith)
            requires
                v == dec_val(dd) * 10 + x,
                0 <= x < 10,
        ;
        lemma_dec_of_val(dd);
        assert(dec_of(v) == dec_of(dec_val(dd)).push(dec_digit(x)));
        assert(dd.push(s.last()) =~= s);
    }
}


/// Decimal writings are nonempty and all digits.
pub proof fn lemma_dec_of_digits(n: nat)
    ensures
        dec_of(n).len() >= 1,
        forall|i: int| 0 <= i < dec_of(n).len() ==> is_dec_digit(#[trigger] dec_of(n)[i]),
    decreases n,
{
    if n < 10 {
        assert(is_dec_digit(dec_digit(n)));
    } else {
        lemma_dec_of_digits(n / 10);
        assert(is_dec_digit(dec_digit(n % 10)));
        assert(forall|i: int|
            0 <= i < dec_of(n / 10).len() ==> #[trigger] dec_of(n)[i] == dec_of(n / 10)[i]);
    }
}

/// A decimal writing of more than one digit never starts with zero.
pub proof fn lemma_dec_of_no_leading_zero(n: nat)
    ensures
        dec_of(n).len() > 1 ==> dec_of(n)[0] != '0',
    decreases n,
{
    if n >= 10 {
        lemma_dec_of_no_leading_zero(n / 10);
        lemma_dec_of_digits(n / 10);
        assert(dec_of(n)[0] == dec_of(n / 10)[0]);
        if dec_of(n / 10).len() == 1 {
            if n / 10 >= 10 {
                lemma_dec_of_digits(n / 10 / 10);
                assert(dec_of(n / 10).len() >= 2);
            }
            assert(n / 10 < 10);
            assert(dec_of(n / 10)[0] == dec_digit(n / 10));
            assert(n / 10 >= 1);
        }
    }
}

/// Reading is the inverse of formatting.
pub proof fn lemma_dec_val_of_dec(n: nat)
    ensures
        dec_val(dec_of(n)) == n,
    decreases n,
{
    if n < 10 {
        let s = dec_of(n);
        assert(s.drop_last() =~= Seq::<char>::empty());
        assert(dec_val(Seq::<char>::empty()) == 0);
        assert(digit_val(dec_digit(n)) == n);
    } else {
        lemma_dec_val_of_dec(n / 10);
        let s = dec_of(n);
        assert(s.drop_last() =~= dec_of(n / 10));
        assert(s.last() == dec_digit(n % 10));
        assert(digit_val(dec_digit(n % 10)) == n % 10);
        assert(dec_val(s) == (n / 10) * 10 + n % 10);
        assert((n / 10) * 10 + n % 10 == n) by (nonlinear_arith);
    }
}

} // verus!
