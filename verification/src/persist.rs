//! The on-disk shape of the record: one JSON document holding the theme
//! ideas, the team-channel sets, and the two tracked message references.
//! Encoding is pinned down character by character. Decoding is proved
//! sound — a record decoded from a document re-encodes to exactly that
//! document, so decoding can neither mangle nor invent state — and proved
//! complete for documents of entry-free records; that documents with
//! entries decode back too is exercised by the round-trip tests.
use vstd::prelude::*;

use crate::channel::Team;
use crate::state::PersistentState;
use crate::text::{dec_of, is_dec_digit_exec, parse_u64, push_char, u64_to_dec};

verus! {

/// Backslash-escaping of quotes and backslashes, the only characters the
/// stored strings can hold that JSON reserves.
pub open spec fn json_escape(s: Seq<char>) -> Seq<char>
    decreases s.len(),
{
    if s.len() == 0 {
        seq![]
    } else {
        let head: Seq<char> = if s[0] == '"' || s[0] == '\\' {
            seq!['\\', s[0]]
        } else {
            seq![s[0]]
        };
        head + json_escape(s.drop_first())
    }
}

/// A JSON string literal: the escaped text in double quotes.
pub open spec fn json_string(s: Seq<char>) -> Seq<char> {
    seq!['"'] + json_escape(s) + seq!['"']
}

/// Escaping works character by character.
proof fn lemma_json_escape_push(s: Seq<char>, c: char)
    ensures
        json_escape(s.push(c)) == json_escape(s) + (if c == '"' || c == '\\' {
            seq!['\\', c]
        } else {
            seq![c]
        }),
    decreases s.len(),
{
    let tail: Seq<char> = if c == '"' || c == '\\' {
        seq!['\\', c]
    } else {
        seq![c]
    };
    if s.len() == 0 {
        assert(s.push(c).drop_first() =~= Seq::<char>::empty());
        assert(s.push(c)[0] == c);
        assert(json_escape(Seq::<char>::empty()) =~= Seq::<char>::empty());
        assert(json_escape(s.push(c)) =~= json_escape(s) + tail);
    } else {
        assert(s.push(c)[0] == s[0]);
        assert(s.push(c).drop_first() =~= s.drop_first().push(c));
        lemma_json_escape_push(s.drop_first(), c);
        assert(json_escape(s.push(c)) =~= json_escape(s) + tail);
    }
}

fn write_json_string(out: &mut String, s: &str)
    ensures
        final(out)@ == old(out)@ + json_string(s@),
{
    push_char(out, '"');
    let n = s.unicode_len();
    let mut i: usize = 0;
    proof {
        assert(s@.skip(0) =~= s@);
        assert(out@ + json_escape(s@) + seq!['"'] =~= old(out)@ + json_string(s@));
    }
    while i < n
        invariant
            n == s@.len(),
            i <= n,
            out@ + json_escape(s@.skip(i as int)) + seq!['"'] == old(out)@ + json_string(s@),
        decreases n - i,
    {
        let c = s.get_char(i);
        proof {
            assert(s@.skip(i as int).drop_first() =~= s@.skip(i + 1));
        }
        if c == '"' || c == '\\' {
            push_char(out, '\\');
        }
        push_char(out, c);
        i += 1;
    }
    proof {
        assert(s@.skip(n as int) =~= Seq::<char>::empty());
    }
    push_char(out, '"');
    proof {
        assert(final(out)@ =~= old(out)@ + json_string(s@));
    }
}

/// One theme entry: the user id as a JSON object key, the idea as the
/// value.
pub open spec fn theme_entry_json(e: (u64, String)) -> Seq<char> {
    json_string(dec_of(e.0 as nat)) + ":"@ + json_string(e.1@)
}

/// The theme entries, comma-separated, in entry order.
pub open spec fn themes_json(es: Seq<(u64, String)>) -> Seq<char>
    decreases es.len(),
{
    if es.len() == 0 {
        seq![]
    } else if es.len() == 1 {
        theme_entry_json(es[0])
    } else {
        themes_json(es.drop_last()) + ","@ + theme_entry_json(es.last())
    }
}

/// One team record as a JSON object, fields in declaration order.
pub open spec fn team_json(t: Team) -> Seq<char> {
    "{\"game_name\":"@ + json_string(t.game_name@) + ",\"category_id\":"@ + dec_of(
        t.category_id as nat,
    ) + ",\"text_id\":"@ + dec_of(t.text_id as nat) + ",\"voice_id\":"@ + dec_of(
        t.voice_id as nat,
    ) + "}"@
}

pub open spec fn team_entry_json(e: (u64, Team)) -> Seq<char> {
    json_string(dec_of(e.0 as nat)) + ":"@ + team_json(e.1)
}

pub open spec fn teams_json(es: Seq<(u64, Team)>) -> Seq<char>
    decreases es.len(),
{
    if es.len() == 0 {
        seq![]
    } else if es.len() == 1 {
        team_entry_json(es[0])
    } else {
        teams_json(es.drop_last()) + ","@ + team_entry_json(es.last())
    }
}

/// The whole document, field by field.
pub open spec fn state_json(
    th: Seq<(u64, String)>,
    tm: Seq<(u64, Team)>,
    eula: (u64, u64),
    ra: (u64, u64),
) -> Seq<char> {
    "{\"theme_ideas\":{"@ + themes_json(th) + "},\"channel_creators\":{"@ + teams_json(tm)
        + "},\"eula_channel_id\":"@ + dec_of(eula.0 as nat) + ",\"eula_message_id\":"@ + dec_of(
        eula.1 as nat,
    ) + ",\"role_assign_channel_id\":"@ + dec_of(ra.0 as nat) + ",\"role_assign_message_id\":"@
        + dec_of(ra.1 as nat) + "}"@
}

fn write_u64_key(out: &mut String, k: u64)
    ensures
        final(out)@ == old(out)@ + json_string(dec_of(k as nat)),
{
    let digits = u64_to_dec(k);
    write_json_string(out, digits.as_str());
    proof {
        lemma_dec_digits_plain(k as nat);
        lemma_json_escape_of_digits(dec_of(k as nat));
    }
}

/// Digit strings carry nothing to escape.
proof fn lemma_json_escape_of_digits(s: Seq<char>)
    requires
        forall|i: int| 0 <= i < s.len() ==> #[trigger] s[i] != '"' && s[i] != '\\',
    ensures
        json_escape(s) == s,
    decreases s.len(),
{
    if s.len() > 0 {
        lemma_json_escape_of_digits(s.drop_first());
        assert(json_escape(s) =~= seq![s[0]] + s.drop_first());
        assert(seq![s[0]] + s.drop_first() =~= s);
    }
}

proof fn lemma_dec_digits_plain(n: nat)
    ensures
        forall|i: int|
            0 <= i < dec_of(n).len() ==> #[trigger] dec_of(n)[i] != '"' && dec_of(n)[i] != '\\',
    decreases n,
{
    if n < 10 {
    } else {
        lemma_dec_digits_plain(n / 10);
        assert(forall|i: int|
            0 <= i < dec_of(n / 10).len() ==> #[trigger] dec_of(n)[i] == dec_of(n / 10)[i]);
    }
}

fn write_team_json(out: &mut String, t: &Team)
    ensures
        final(out)@ == old(out)@ + team_json(*t),
{
    out.append("{\"game_name\":");
    write_json_string(out, t.game_name.as_str());
    out.append(",\"category_id\":");
    let c = u64_to_dec(t.category_id);
    out.append(c.as_str());
    out.append(",\"text_id\":");
    let x = u64_to_dec(t.text_id);
    out.append(x.as_str());
    out.append(",\"voice_id\":");
    let v = u64_to_dec(t.voice_id);
    out.append(v.as_str());
    out.append("}");
    proof {
        assert(final(out)@ =~= old(out)@ + team_json(*t));
    }
}

/// Writes the record as one JSON document, exactly the shape
/// `state_json` gives.
pub fn to_json(state: &PersistentState) -> (r: String)
    requires
        state.wf(),
    ensures
        r@ == state_json(
            state.theme_entries(),
            state.team_entries(),
            state.eula_ref(),
            state.role_assign_ref(),
        ),
{
    let mut out = String::new();
    out.append("{\"theme_ideas\":{");
    let tn = state.theme_entry_len();
    let mut i: usize = 0;
    proof {
        assert(out@ =~= "{\"theme_ideas\":{"@ + themes_json(state.theme_entries().take(0)));
    }
    while i < tn
        invariant
            state.wf(),
            tn == state.theme_entries().len(),
            i <= tn,
            out@ == "{\"theme_ideas\":{"@ + themes_json(state.theme_entries().take(i as int)),
        decreases tn - i,
    {
        if i > 0 {
            out.append(",");
        }
        let e = state.theme_entry_at(i);
        proof {
            lemma_dec_digits_plain(e.0 as nat);
            lemma_json_escape_of_digits(dec_of(e.0 as nat));
        }
        write_u64_key(&mut out, e.0);
        out.append(":");
        write_json_string(&mut out, e.1.as_str());
        proof {
            let es = state.theme_entries();
            assert(es.take(i + 1).drop_last() =~= es.take(i as int));
            assert(es.take(i + 1).last() == es[i as int]);
            assert(out@ =~= "{\"theme_ideas\":{"@ + themes_json(es.take(i + 1)));
        }
        i += 1;
    }
    proof {
        assert(state.theme_entries().take(tn as int) =~= state.theme_entries());
    }
    out.append("},\"channel_creators\":{");
    let mn = state.team_entry_len();
    let mut j: usize = 0;
    let ghost themes_part = "{\"theme_ideas\":{"@ + themes_json(state.theme_entries())
        + "},\"channel_creators\":{"@;
    proof {
        assert(out@ =~= themes_part + teams_json(state.team_entries().take(0)));
    }
    while j < mn
        invariant
            state.wf(),
            mn == state.team_entries().len(),
            j <= mn,
            out@ == themes_part + teams_json(state.team_entries().take(j as int)),
            themes_part == "{\"theme_ideas\":{"@ + themes_json(state.theme_entries())
                + "},\"channel_creators\":{"@,
        decreases mn - j,
    {
        if j > 0 {
            out.append(",");
        }
        let e = state.team_entry_at(j);
        proof {
            lemma_dec_digits_plain(e.0 as nat);
            lemma_json_escape_of_digits(dec_of(e.0 as nat));
        }
        write_u64_key(&mut out, e.0);
        out.append(":");
        write_team_json(&mut out, e.1);
        proof {
            let es = state.team_entries();
            assert(es.take(j + 1).drop_last() =~= es.take(j as int));
            assert(es.take(j + 1).last() == es[j as int]);
            assert(out@ =~= themes_part + teams_json(es.take(j + 1)));
        }
        j += 1;
    }
    proof {
        assert(state.team_entries().take(mn as int) =~= state.team_entries());
    }
    out.append("},\"eula_channel_id\":");
    let ec = u64_to_dec(state.get_eula_channel());
    out.append(ec.as_str());
    out.append(",\"eula_message_id\":");
    let em = u64_to_dec(state.get_eula_message());
    out.append(em.as_str());
    out.append(",\"role_assign_channel_id\":");
    let rc = u64_to_dec(state.get_role_assign_channel());
    out.append(rc.as_str());
    out.append(",\"role_assign_message_id\":");
    let rm = u64_to_dec(state.get_role_assign_message());
    out.append(rm.as_str());
    out.append("}");
    proof {
        assert(out@ =~= state_json(
            state.theme_entries(),
            state.team_entries(),
            state.eula_ref(),
            state.role_assign_ref(),
        ));
    }
    out
}

// ---------------------------------------------------------------------------
// Decoding
// ---------------------------------------------------------------------------

/// Whether `lit` stands at position `pos` of `doc`.
pub open spec fn lit_at(doc: Seq<char>, pos: int, lit: Seq<char>) -> bool {
    0 <= pos && pos + lit.len() <= doc.len() && doc.subrange(pos, pos + lit.len()) == lit
}

/// Consumes `lit` at position `pos`.
fn expect_lit(doc: &Vec<char>, pos: usize, lit: &str) -> (r: Option<usize>)
    ensures
        match r {
            Some(p) => lit_at(doc@, pos as int, lit@) && p == pos + lit@.len() && p <= doc@.len(),
            None => !lit_at(doc@, pos as int, lit@),
        },
{
    let n = lit.unicode_len();
    let dn = doc.len();
    if pos > dn || n > dn - pos {
        return None;
    }
    let mut k: usize = 0;
    while k < n
        invariant
            n == lit@.len(),
            dn == doc@.len(),
            k <= n,
            pos + n <= dn,
            forall|m: int| 0 <= m < k ==> doc@[pos + m] == lit@[m],
        decreases n - k,
    {
        if doc[pos + k] != lit.get_char(k) {
            proof {
                if lit_at(doc@, pos as int, lit@) {
                    assert(doc@.subrange(pos as int, pos + lit@.len())[k as int] == lit@[k as int]);
                }
            }
            return None;
        }
        k += 1;
    }
    proof {
        assert(doc@.subrange(pos as int, pos + lit@.len()) =~= lit@);
    }
    Some(pos + n)
}

/// Reads a JSON string literal, undoing the escapes `json_escape` makes.
/// Reads a JSON string literal, undoing the escapes `json_escape` makes:
/// what it consumes is exactly the quoted escaping of what it returns.
fn read_json_string(doc: &Vec<char>, pos: usize) -> (r: Option<(String, usize)>)
    ensures
        r matches Some(p) ==> pos < p.1 <= doc@.len() && doc@.subrange(pos as int, p.1 as int)
            == json_string(p.0@),
{
    if pos >= doc.len() || doc[pos] != '"' {
        return None;
    }
    let mut i = pos + 1;
    let mut out = String::new();
    proof {
        assert(doc@.subrange(pos + 1, pos + 1) =~= json_escape(out@));
    }
    loop
        invariant
            pos < i,
            i <= doc@.len(),
            pos < doc@.len(),
            doc@[pos as int] == '"',
            doc@.subrange(pos + 1, i as int) == json_escape(out@),
        decreases doc@.len() - i,
    {
        if i >= doc.len() {
            return None;
        }
        let c = doc[i];
        if c == '"' {
            proof {
                assert(doc@.subrange(pos as int, i + 1) =~= seq!['"'] + json_escape(out@)
                    + seq!['"']);
            }
            return Some((out, i + 1));
        }
        if c == '\\' {
            if i + 1 >= doc.len() {
                return None;
            }
            let e = doc[i + 1];
            if e == '"' || e == '\\' {
                proof {
                    lemma_json_escape_push(out@, e);
                    assert(doc@.subrange(pos + 1, i + 2) =~= doc@.subrange(pos + 1, i as int)
                        + seq![doc@[i as int], doc@[i + 1]]);
                }
                push_char(&mut out, e);
                i += 2;
            } else {
                return None;
            }
        } else {
            proof {
                lemma_json_escape_push(out@, c);
                assert(doc@.subrange(pos + 1, i + 1) =~= doc@.subrange(pos + 1, i as int)
                    + seq![doc@[i as int]]);
            }
            push_char(&mut out, c);
            i += 1;
        }
    }
}

/// A canonical decimal writing of `k` stands at `pos`: its digits,
/// followed by a non-digit or the end of the document.
pub open spec fn dec_of_at(doc: Seq<char>, pos: int, k: u64) -> bool {
    &&& lit_at(doc, pos, dec_of(k as nat))
    &&& (pos + dec_of(k as nat).len() == doc.len() || !crate::text::is_dec_digit(
        doc[pos + dec_of(k as nat).len()],
    ))
}

/// Reads the maximal run of decimal digits at `pos` as a number, in
/// canonical form: what it consumes is exactly the decimal writing of
/// what it returns, and wherever a canonical number stands it succeeds.
fn read_json_u64(doc: &Vec<char>, pos: usize) -> (r: Option<(u64, usize)>)
    ensures
        match r {
            Some(p) => {
                &&& pos < p.1 <= doc@.len()
                &&& (p.1 == doc@.len() || !crate::text::is_dec_digit(doc@[p.1 as int]))
                &&& doc@.subrange(pos as int, p.1 as int) == dec_of(p.0 as nat)
            },
            None => {
                ||| pos >= doc@.len()
                ||| !crate::text::is_dec_digit(doc@[pos as int])
                ||| (pos + 1 < doc@.len() && doc@[pos as int] == '0' && crate::text::is_dec_digit(
                    doc@[pos + 1],
                ))
                ||| exists|m: int|
                    pos < m <= doc@.len() && (forall|q: int|
                        pos <= q < m ==> crate::text::is_dec_digit(#[trigger] doc@[q]))
                        && crate::text::dec_val(doc@.subrange(pos as int, m)) > u64::MAX
            },
        },
        (exists|k: u64| #[trigger] dec_of_at(doc@, pos as int, k)) ==> r is Some,
{
    if pos >= doc.len() {
        proof {
            if exists|k: u64| dec_of_at(doc@, pos as int, k) {
                let k = choose|k: u64| dec_of_at(doc@, pos as int, k);
                crate::text::lemma_dec_of_digits(k as nat);
            }
        }
        return None;
    }
    let mut i = pos;
    let mut digits: Vec<char> = Vec::new();
    while i < doc.len() && is_dec_digit_exec(doc[i])
        invariant
            pos <= i <= doc@.len(),
            digits@ =~= doc@.subrange(pos as int, i as int),
            forall|m: int| pos <= m < i ==> crate::text::is_dec_digit(#[trigger] doc@[m]),
        decreases doc@.len() - i,
    {
        digits.push(doc[i]);
        proof {
            assert(doc@.subrange(pos as int, i + 1) =~= doc@.subrange(pos as int, i as int).push(
                doc@[i as int]));
        }
        i += 1;
    }
    proof {
        if exists|k: u64| dec_of_at(doc@, pos as int, k) {
            let k = choose|k: u64| dec_of_at(doc@, pos as int, k);
            let run = dec_of(k as nat);
            crate::text::lemma_dec_of_digits(k as nat);
            crate::text::lemma_dec_of_no_leading_zero(k as nat);
            crate::text::lemma_dec_val_of_dec(k as nat);
            assert forall|m: int| pos <= m < pos + run.len() implies crate::text::is_dec_digit(
                #[trigger] doc@[m],
            ) by {
                assert(doc@[m] == doc@.subrange(pos as int, pos + run.len())[m - pos]);
            }
            assert(doc@[pos as int] == doc@.subrange(pos as int, pos + run.len())[0]);
            // The scan is the maximal digit run, so it ends exactly where
            // the canonical writing does.
            assert(i >= pos + run.len()) by {
                if i < pos + run.len() {
                    assert(crate::text::is_dec_digit(doc@[i as int]));
                }
            }
            assert(i == pos + run.len()) by {
                if i > pos + run.len() {
                    assert(crate::text::is_dec_digit(doc@[pos + run.len()]));
                }
            }
            assert(digits@ =~= run);
        }
    }
    if i == pos {
        return None;
    }
    if i > pos + 1 && doc[pos] == '0' {
        proof {
            if exists|k: u64| dec_of_at(doc@, pos as int, k) {
                let k = choose|k: u64| dec_of_at(doc@, pos as int, k);
                if dec_of(k as nat).len() > 1 {
                    assert(dec_of(k as nat)[0] != '0');
                } else {
                    assert(crate::text::is_dec_digit(doc@[pos + 1]));
                }
            }
        }
        return None;
    }
    match parse_u64(&digits) {
        Some(v) => {
            proof {
                crate::text::lemma_dec_of_val(digits@);
            }
            Some((v, i))
        },
        None => None,
    }
}

/// Reads a quoted decimal key, as `write_u64_key` writes it: what it
/// consumes is exactly the quoted decimal writing of what it returns.
fn read_quoted_u64(doc: &Vec<char>, pos: usize) -> (r: Option<(u64, usize)>)
    ensures
        r matches Some(p) ==> pos < p.1 <= doc@.len() && doc@.subrange(pos as int, p.1 as int)
            == json_string(dec_of(p.0 as nat)),
{
    if pos >= doc.len() || doc[pos] != '"' {
        return None;
    }
    match read_json_u64(doc, pos + 1) {
        None => None,
        Some((v, i)) => {
            if i < doc.len() && doc[i] == '"' {
                proof {
                    lemma_dec_digits_plain(v as nat);
                    lemma_json_escape_of_digits(dec_of(v as nat));
                    assert(doc@.subrange(pos as int, i + 1) =~= seq!['"'] + doc@.subrange(
                        pos + 1,
                        i as int,
                    ) + seq!['"']);
                    assert(doc@.subrange(pos as int, i + 1) =~= json_string(dec_of(v as nat)));
                }
                Some((v, i + 1))
            } else {
                None
            }
        },
    }
}

/// Reads one team object, as `write_team_json` writes it: what it
/// consumes is exactly the JSON writing of what it returns.
fn read_team_object(doc: &Vec<char>, pos: usize) -> (r: Option<(Team, usize)>)
    ensures
        r matches Some(p) ==> pos < p.1 <= doc@.len() && doc@.subrange(pos as int, p.1 as int)
            == team_json(p.0),
{
    let p1 = match expect_lit(doc, pos, "{\"game_name\":") {
        Some(p) => p,
        None => {
            return None;
        },
    };
    let (game_name, p2) = match read_json_string(doc, p1) {
        Some(x) => x,
        None => {
            return None;
        },
    };
    proof {
        assert(doc@.subrange(p1 as int, p2 as int) == json_string(game_name@));
    }
    let p3 = match expect_lit(doc, p2, ",\"category_id\":") {
        Some(p) => p,
        None => {
            return None;
        },
    };
    let (category_id, p4) = match read_json_u64(doc, p3) {
        Some(x) => x,
        None => {
            return None;
        },
    };
    let p5 = match expect_lit(doc, p4, ",\"text_id\":") {
        Some(p) => p,
        None => {
            return None;
        },
    };
    let (text_id, p6) = match read_json_u64(doc, p5) {
        Some(x) => x,
        None => {
            return None;
        },
    };
    let p7 = match expect_lit(doc, p6, ",\"voice_id\":") {
        Some(p) => p,
        None => {
            return None;
        },
    };
    let (voice_id, p8) = match read_json_u64(doc, p7) {
        Some(x) => x,
        None => {
            return None;
        },
    };
    let p9 = match expect_lit(doc, p8, "}") {
        Some(p) => p,
        None => {
            return None;
        },
    };
    let team = Team { game_name, category_id, text_id, voice_id };
    proof {
        assert(doc@.subrange(p1 as int, p2 as int) == json_string(team.game_name@));
        let g1 = "{\"game_name\":"@;
        let g2 = g1 + json_string(team.game_name@);
        let g3 = g2 + ",\"category_id\":"@;
        let g4 = g3 + dec_of(team.category_id as nat);
        let g5 = g4 + ",\"text_id\":"@;
        let g6 = g5 + dec_of(team.text_id as nat);
        let g7 = g6 + ",\"voice_id\":"@;
        let g8 = g7 + dec_of(team.voice_id as nat);
        let g9 = g8 + "}"@;
        assert(doc@.subrange(pos as int, p1 as int) == g1);
        assert(doc@.subrange(pos as int, p2 as int) =~= doc@.subrange(pos as int, p1 as int)
            + doc@.subrange(p1 as int, p2 as int));
        assert(doc@.subrange(pos as int, p2 as int) == g2);
        assert(doc@.subrange(pos as int, p3 as int) =~= doc@.subrange(pos as int, p2 as int)
            + doc@.subrange(p2 as int, p3 as int));
        assert(doc@.subrange(pos as int, p3 as int) == g3);
        assert(doc@.subrange(pos as int, p4 as int) =~= doc@.subrange(pos as int, p3 as int)
            + doc@.subrange(p3 as int, p4 as int));
        assert(doc@.subrange(pos as int, p4 as int) == g4);
        assert(doc@.subrange(pos as int, p5 as int) =~= doc@.subrange(pos as int, p4 as int)
            + doc@.subrange(p4 as int, p5 as int));
        assert(doc@.subrange(pos as int, p5 as int) == g5);
        assert(doc@.subrange(pos as int, p6 as int) =~= doc@.subrange(pos as int, p5 as int)
            + doc@.subrange(p5 as int, p6 as int));
        assert(doc@.subrange(pos as int, p6 as int) == g6);
        assert(doc@.subrange(pos as int, p7 as int) =~= doc@.subrange(pos as int, p6 as int)
            + doc@.subrange(p6 as int, p7 as int));
        assert(doc@.subrange(pos as int, p7 as int) == g7);
        assert(doc@.subrange(pos as int, p8 as int) =~= doc@.subrange(pos as int, p7 as int)
            + doc@.subrange(p7 as int, p8 as int));
        assert(doc@.subrange(pos as int, p8 as int) == g8);
        assert(doc@.subrange(pos as int, p9 as int) =~= doc@.subrange(pos as int, p8 as int)
            + doc@.subrange(p8 as int, p9 as int));
        assert(doc@.subrange(pos as int, p9 as int) == g9);
        assert(team_json(team) == g9);
    }
    Some((team, p9))
}

/// Some record without submissions or teams encodes to `doc`.
pub open spec fn entryless_state_doc(doc: Seq<char>) -> bool {
    exists|e: (u64, u64), ra: (u64, u64)|
        doc == state_json(Seq::<(u64, String)>::empty(), Seq::<(u64, Team)>::empty(), e, ra)
}

/// The exact layout of a document that encodes a record without entries:
/// where each literal, each number, and the end of the document stand.
#[verifier::rlimit(100)]
proof fn lemma_entryless_shape(doc: Seq<char>, e: (u64, u64), ra: (u64, u64))
    requires
        doc == state_json(Seq::<(u64, String)>::empty(), Seq::<(u64, Team)>::empty(), e, ra),
    ensures
        ({
            let a = "{\"theme_ideas\":{"@.len() as int;
            let b = "},\"channel_creators\":{"@.len() as int;
            let c = "},\"eula_channel_id\":"@.len() as int;
            let d0 = dec_of(e.0 as nat).len() as int;
            let d = ",\"eula_message_id\":"@.len() as int;
            let d1 = dec_of(e.1 as nat).len() as int;
            let f = ",\"role_assign_channel_id\":"@.len() as int;
            let d2 = dec_of(ra.0 as nat).len() as int;
            let g = ",\"role_assign_message_id\":"@.len() as int;
            let d3 = dec_of(ra.1 as nat).len() as int;
            &&& lit_at(doc, 0, "{\"theme_ideas\":{"@)
            &&& doc[a] == '}'
            &&& lit_at(doc, a, "},\"channel_creators\":{"@)
            &&& doc[a + b] == '}'
            &&& lit_at(doc, a + b, "},\"eula_channel_id\":"@)
            &&& dec_of_at(doc, a + b + c, e.0)
            &&& lit_at(doc, a + b + c + d0, ",\"eula_message_id\":"@)
            &&& dec_of_at(doc, a + b + c + d0 + d, e.1)
            &&& lit_at(doc, a + b + c + d0 + d + d1, ",\"role_assign_channel_id\":"@)
            &&& dec_of_at(doc, a + b + c + d0 + d + d1 + f, ra.0)
            &&& lit_at(doc, a + b + c + d0 + d + d1 + f + d2, ",\"role_assign_message_id\":"@)
            &&& dec_of_at(doc, a + b + c + d0 + d + d1 + f + d2 + g, ra.1)
            &&& lit_at(doc, a + b + c + d0 + d + d1 + f + d2 + g + d3, "}"@)
            &&& doc.len() == a + b + c + d0 + d + d1 + f + d2 + g + d3 + "}"@.len()
        }),
{
    reveal_strlit("},\"channel_creators\":{");
    reveal_strlit("},\"eula_channel_id\":");
    reveal_strlit(",\"eula_message_id\":");
    reveal_strlit(",\"role_assign_channel_id\":");
    reveal_strlit(",\"role_assign_message_id\":");
    reveal_strlit("}");
    let la = "{\"theme_ideas\":{"@;
    let lb = "},\"channel_creators\":{"@;
    let lc = "},\"eula_channel_id\":"@;
    let ld = ",\"eula_message_id\":"@;
    let le = ",\"role_assign_channel_id\":"@;
    let lf = ",\"role_assign_message_id\":"@;
    let lg = "}"@;
    let a = la.len() as int;
    let d0 = dec_of(e.0 as nat).len() as int;
    let d1 = dec_of(e.1 as nat).len() as int;
    let d2 = dec_of(ra.0 as nat).len() as int;
    let d3 = dec_of(ra.1 as nat).len() as int;
    assert(themes_json(Seq::<(u64, String)>::empty()) =~= Seq::<char>::empty());
    assert(teams_json(Seq::<(u64, Team)>::empty()) =~= Seq::<char>::empty());
    let g1 = la;
    let g2 = g1 + lb;
    let g3 = g2 + lc;
    let g4 = g3 + dec_of(e.0 as nat);
    let g5 = g4 + ld;
    let g6 = g5 + dec_of(e.1 as nat);
    let g7 = g6 + le;
    let g8 = g7 + dec_of(ra.0 as nat);
    let g9 = g8 + lf;
    let g10 = g9 + dec_of(ra.1 as nat);
    let g11 = g10 + lg;
    assert(doc =~= g11);
    assert(doc.subrange(0, a) =~= la);
    assert(doc.subrange(a, g2.len() as int) =~= lb);
    assert(doc.subrange(g2.len() as int, g3.len() as int) =~= lc);
    assert(doc.subrange(g3.len() as int, g4.len() as int) =~= dec_of(e.0 as nat));
    assert(doc.subrange(g4.len() as int, g5.len() as int) =~= ld);
    assert(doc.subrange(g5.len() as int, g6.len() as int) =~= dec_of(e.1 as nat));
    assert(doc.subrange(g6.len() as int, g7.len() as int) =~= le);
    assert(doc.subrange(g7.len() as int, g8.len() as int) =~= dec_of(ra.0 as nat));
    assert(doc.subrange(g8.len() as int, g9.len() as int) =~= lf);
    assert(doc.subrange(g9.len() as int, g10.len() as int) =~= dec_of(ra.1 as nat));
    assert(doc.subrange(g10.len() as int, g11.len() as int) =~= lg);
    // The character after each number is the head of the next literal,
    // never a digit.
    assert(doc[a] == lb[0] && lb[0] == '}');
    assert(doc[g2.len() as int] == lc[0] && lc[0] == '}');
    assert(doc[g4.len() as int] == ld[0] && ld[0] == ',');
    assert(doc[g6.len() as int] == le[0] && le[0] == ',');
    assert(doc[g8.len() as int] == lf[0] && lf[0] == ',');
    assert(doc[g10.len() as int] == lg[0] && lg[0] == '}');
    assert(!crate::text::is_dec_digit(',') && !crate::text::is_dec_digit('}'));
}

/// Two maximal digit runs from the same start end at the same place.
proof fn lemma_dec_end_unique(doc: Seq<char>, pos: int, x: int, y: int)
    requires
        pos <= x <= doc.len(),
        pos <= y <= doc.len(),
        forall|m: int| pos <= m < x ==> crate::text::is_dec_digit(#[trigger] doc[m]),
        forall|m: int| pos <= m < y ==> crate::text::is_dec_digit(#[trigger] doc[m]),
        x == doc.len() || !crate::text::is_dec_digit(doc[x]),
        y == doc.len() || !crate::text::is_dec_digit(doc[y]),
    ensures
        x == y,
{
    if x < y {
        assert(crate::text::is_dec_digit(doc[x]));
    }
    if y < x {
        assert(crate::text::is_dec_digit(doc[y]));
    }
}

/// Reads back a document written by `to_json`; anything else is refused.
/// Two directions are proved. Soundness: the record handed back is
/// well-formed and re-encodes to exactly the document read, so decoding
/// cannot mangle or invent state. Completeness, for records without
/// entries: every document that such a record encodes to is accepted.
/// Completeness for documents with theme or team entries is exercised by
/// the round-trip tests.
#[verifier::rlimit(100)]
pub fn from_json(doc_str: &str) -> (r: Option<PersistentState>)
    ensures
        r matches Some(st) ==> st.wf() && doc_str@ == state_json(
            st.theme_entries(),
            st.team_entries(),
            st.eula_ref(),
            st.role_assign_ref(),
        ),
        entryless_state_doc(doc_str@) ==> r is Some,
{
    let doc = crate::text::str_to_chars(doc_str);
    let mut state = PersistentState::new();
    let mut pos = match expect_lit(&doc, 0, "{\"theme_ideas\":{") {
        Some(p) => p,
        None => {
            proof {
                if entryless_state_doc(doc@) {
                    let (e, ra) = choose|e: (u64, u64), ra: (u64, u64)|
                        doc@ == state_json(
                            Seq::<(u64, String)>::empty(),
                            Seq::<(u64, Team)>::empty(),
                            e,
                            ra,
                        );
                    lemma_entryless_shape(doc@, e, ra);
                }
            }
            return None;
        },
    };
    proof {
        assert(doc@.subrange(0, pos as int) == "{\"theme_ideas\":{"@);
        assert(doc@.subrange(0, pos as int) =~= "{\"theme_ideas\":{"@ + themes_json(
            state.theme_entries(),
        ));
    }
    // Theme entries until the closing brace. A document of an entry-free
    // record opens this object with a closing brace, never a quote.
    if pos < doc.len() && doc[pos] == '"' {
        proof {
            if entryless_state_doc(doc@) {
                let (e, ra) = choose|e: (u64, u64), ra: (u64, u64)|
                    doc@ == state_json(
                        Seq::<(u64, String)>::empty(),
                        Seq::<(u64, Team)>::empty(),
                        e,
                        ra,
                    );
                lemma_entryless_shape(doc@, e, ra);
            }
            assert(!entryless_state_doc(doc_str@));
        }
        loop
            invariant_except_break
                state.wf(),
                pos <= doc@.len(),
                !entryless_state_doc(doc_str@),
                state.team_entries() == Seq::<(u64, Team)>::empty(),
                doc@.subrange(0, pos as int) == "{\"theme_ideas\":{"@ + themes_json(
                    state.theme_entries(),
                ) + (if state.theme_entries().len() == 0 {
                    Seq::<char>::empty()
                } else {
                    ","@
                }),
            ensures
                state.wf(),
                pos <= doc@.len(),
                !entryless_state_doc(doc_str@),
                state.team_entries() == Seq::<(u64, Team)>::empty(),
                doc@.subrange(0, pos as int) == "{\"theme_ideas\":{"@ + themes_json(
                    state.theme_entries(),
                ),
            decreases doc@.len() - pos,
        {
            let (user, p1) = match read_quoted_u64(&doc, pos) {
                Some(x) => x,
                None => {
                    return None;
                },
            };
            let p2 = match expect_lit(&doc, p1, ":") {
                Some(p) => p,
                None => {
                    return None;
                },
            };
            let (idea, p3) = match read_json_string(&doc, p2) {
                Some(x) => x,
                None => {
                    return None;
                },
            };
            let ghost idea_view = idea@;
            let ghost old_entries = state.theme_entries();
            let was_fresh = match state.try_add_theme(user, idea) {
                crate::state::SubmissionResult::Done => true,
                crate::state::SubmissionResult::AlreadySubmitted { .. } => false,
            };
            if !was_fresh {
                // A duplicate key never comes out of `to_json`.
                return None;
            }
            proof {
                let es = state.theme_entries();
                assert(es == old_entries.push((user, idea)));
                assert(es.last().1@ == idea_view);
                assert(theme_entry_json(es.last()) == json_string(dec_of(user as nat)) + ":"@
                    + json_string(idea_view));
                assert(doc@.subrange(0, p1 as int) =~= doc@.subrange(0, pos as int)
                    + doc@.subrange(pos as int, p1 as int));
                assert(doc@.subrange(0, p2 as int) =~= doc@.subrange(0, p1 as int)
                    + doc@.subrange(p1 as int, p2 as int));
                assert(doc@.subrange(0, p3 as int) =~= doc@.subrange(0, p2 as int)
                    + doc@.subrange(p2 as int, p3 as int));
                assert(es.drop_last() =~= old_entries);
                if old_entries.len() == 0 {
                    assert(themes_json(es) == theme_entry_json(es.last()));
                } else {
                    assert(themes_json(es) == themes_json(old_entries) + ","@ + theme_entry_json(
                        es.last(),
                    ));
                }
                assert(doc@.subrange(0, p3 as int) =~= "{\"theme_ideas\":{"@ + themes_json(es));
            }
            if p3 < doc.len() && doc[p3] == ',' {
                proof {
                    reveal_strlit(",");
                    assert(","@ =~= seq![',']);
                    assert(doc@.subrange(0, p3 + 1) =~= doc@.subrange(0, p3 as int) + seq![
                        doc@[p3 as int]]);
                    assert(doc@.subrange(0, p3 + 1) =~= "{\"theme_ideas\":{"@ + themes_json(
                        state.theme_entries(),
                    ) + ","@);
                }
                pos = p3 + 1;
            } else {
                pos = p3;
                break ;
            }
        }
    }
    let ghost themes_prefix = "{\"theme_ideas\":{"@ + themes_json(state.theme_entries());
    proof {
        assert(doc@.subrange(0, pos as int) =~= themes_prefix);
    }
    pos = match expect_lit(&doc, pos, "},\"channel_creators\":{") {
        Some(p) => p,
        None => {
            proof {
                if entryless_state_doc(doc@) {
                    let (e, ra) = choose|e: (u64, u64), ra: (u64, u64)|
                        doc@ == state_json(
                            Seq::<(u64, String)>::empty(),
                            Seq::<(u64, Team)>::empty(),
                            e,
                            ra,
                        );
                    lemma_entryless_shape(doc@, e, ra);
                }
            }
            return None;
        },
    };
    proof {
        assert(doc@.subrange(0, pos as int) =~= themes_prefix + "},\"channel_creators\":{"@);
        assert(doc@.subrange(0, pos as int) =~= themes_prefix + "},\"channel_creators\":{"@
            + teams_json(state.team_entries()));
    }
    if pos < doc.len() && doc[pos] == '"' {
        proof {
            if entryless_state_doc(doc@) {
                let (e, ra) = choose|e: (u64, u64), ra: (u64, u64)|
                    doc@ == state_json(
                        Seq::<(u64, String)>::empty(),
                        Seq::<(u64, Team)>::empty(),
                        e,
                        ra,
                    );
                lemma_entryless_shape(doc@, e, ra);
            }
            assert(!entryless_state_doc(doc_str@));
        }
        loop
            invariant_except_break
                state.wf(),
                pos <= doc@.len(),
                !entryless_state_doc(doc_str@),
                themes_prefix == "{\"theme_ideas\":{"@ + themes_json(state.theme_entries()),
                doc@.subrange(0, pos as int) == themes_prefix + "},\"channel_creators\":{"@
                    + teams_json(state.team_entries()) + (if state.team_entries().len() == 0 {
                    Seq::<char>::empty()
                } else {
                    ","@
                }),
            ensures
                state.wf(),
                pos <= doc@.len(),
                !entryless_state_doc(doc_str@),
                themes_prefix == "{\"theme_ideas\":{"@ + themes_json(state.theme_entries()),
                doc@.subrange(0, pos as int) == themes_prefix + "},\"channel_creators\":{"@
                    + teams_json(state.team_entries()),
            decreases doc@.len() - pos,
        {
            let (user, p1) = match read_quoted_u64(&doc, pos) {
                Some(x) => x,
                None => {
                    return None;
                },
            };
            let p2 = match expect_lit(&doc, p1, ":") {
                Some(p) => p,
                None => {
                    return None;
                },
            };
            let (team, p3) = match read_team_object(&doc, p2) {
                Some(x) => x,
                None => {
                    return None;
                },
            };
            if state.has_created_channel(user) {
                // A duplicate key never comes out of `to_json`.
                return None;
            }
            let ghost old_entries = state.team_entries();
            state.register_channel_creation(user, &team);
            proof {
                let es = state.team_entries();
                assert(es == old_entries.push((user, team)));
                assert(team_entry_json(es.last()) == json_string(dec_of(user as nat)) + ":"@
                    + team_json(team));
                assert(doc@.subrange(0, p1 as int) =~= doc@.subrange(0, pos as int)
                    + doc@.subrange(pos as int, p1 as int));
                assert(doc@.subrange(0, p2 as int) =~= doc@.subrange(0, p1 as int)
                    + doc@.subrange(p1 as int, p2 as int));
                assert(doc@.subrange(0, p3 as int) =~= doc@.subrange(0, p2 as int)
                    + doc@.subrange(p2 as int, p3 as int));
                assert(es.drop_last() =~= old_entries);
                if old_entries.len() == 0 {
                    assert(teams_json(es) == team_entry_json(es.last()));
                } else {
                    assert(teams_json(es) == teams_json(old_entries) + ","@ + team_entry_json(
                        es.last(),
                    ));
                }
                assert(doc@.subrange(0, p3 as int) =~= themes_prefix
                    + "},\"channel_creators\":{"@ + teams_json(es));
            }
            if p3 < doc.len() && doc[p3] == ',' {
                proof {
                    reveal_strlit(",");
                    assert(","@ =~= seq![',']);
                    assert(doc@.subrange(0, p3 + 1) =~= doc@.subrange(0, p3 as int) + seq![
                        doc@[p3 as int]]);
                    assert(doc@.subrange(0, p3 + 1) =~= themes_prefix
                        + "},\"channel_creators\":{"@ + teams_json(state.team_entries())
                        + ","@);
                }
                pos = p3 + 1;
            } else {
                pos = p3;
                break ;
            }
        }
    }
    let ghost teams_prefix = themes_prefix + "},\"channel_creators\":{"@ + teams_json(
        state.team_entries(),
    );
    proof {
        assert(doc@.subrange(0, pos as int) =~= teams_prefix);
    }
    pos = match expect_lit(&doc, pos, "},\"eula_channel_id\":") {
        Some(p) => p,
        None => {
            proof {
                if entryless_state_doc(doc@) {
                    let (e, ra) = choose|e: (u64, u64), ra: (u64, u64)|
                        doc@ == state_json(
                            Seq::<(u64, String)>::empty(),
                            Seq::<(u64, Team)>::empty(),
                            e,
                            ra,
                        );
                    lemma_entryless_shape(doc@, e, ra);
                }
            }
            return None;
        },
    };
    let (eula_channel, p1) = match read_json_u64(&doc, pos) {
        Some(x) => x,
        None => {
            proof {
                if entryless_state_doc(doc@) {
                    let (e, ra) = choose|e: (u64, u64), ra: (u64, u64)|
                        doc@ == state_json(
                            Seq::<(u64, String)>::empty(),
                            Seq::<(u64, Team)>::empty(),
                            e,
                            ra,
                        );
                    lemma_entryless_shape(doc@, e, ra);
                    assert(dec_of_at(doc@, pos as int, e.0));
                }
            }
            return None;
        },
    };
    proof {
        if entryless_state_doc(doc@) {
            let (e, ra) = choose|e: (u64, u64), ra: (u64, u64)|
                doc@ == state_json(
                    Seq::<(u64, String)>::empty(),
                    Seq::<(u64, Team)>::empty(),
                    e,
                    ra,
                );
            lemma_entryless_shape(doc@, e, ra);
            crate::text::lemma_dec_of_digits(eula_channel as nat);
            crate::text::lemma_dec_of_digits(e.0 as nat);
            assert forall|m: int| pos <= m < p1 implies crate::text::is_dec_digit(
                #[trigger] doc@[m],
            ) by {
                assert(doc@[m] == doc@.subrange(pos as int, p1 as int)[m - pos]);
            }
            assert forall|m: int|
                pos <= m < pos + dec_of(e.0 as nat).len() implies crate::text::is_dec_digit(
                #[trigger] doc@[m],
            ) by {
                assert(doc@[m] == doc@.subrange(
                    pos as int,
                    pos + dec_of(e.0 as nat).len() as int,
                )[m - pos]);
            }
            lemma_dec_end_unique(
                doc@,
                pos as int,
                p1 as int,
                pos + dec_of(e.0 as nat).len(),
            );
        }
    }
    let p2 = match expect_lit(&doc, p1, ",\"eula_message_id\":") {
        Some(p) => p,
        None => {
            proof {
                if entryless_state_doc(doc@) {
                    let (e, ra) = choose|e: (u64, u64), ra: (u64, u64)|
                        doc@ == state_json(
                            Seq::<(u64, String)>::empty(),
                            Seq::<(u64, Team)>::empty(),
                            e,
                            ra,
                        );
                    lemma_entryless_shape(doc@, e, ra);
                }
            }
            return None;
        },
    };
    let (eula_message, p3) = match read_json_u64(&doc, p2) {
        Some(x) => x,
        None => {
            proof {
                if entryless_state_doc(doc@) {
                    let (e, ra) = choose|e: (u64, u64), ra: (u64, u64)|
                        doc@ == state_json(
                            Seq::<(u64, String)>::empty(),
                            Seq::<(u64, Team)>::empty(),
                            e,
                            ra,
                        );
                    lemma_entryless_shape(doc@, e, ra);
                    assert(dec_of_at(doc@, p2 as int, e.1));
                }
            }
            return None;
        },
    };
    proof {
        if entryless_state_doc(doc@) {
            let (e, ra) = choose|e: (u64, u64), ra: (u64, u64)|
                doc@ == state_json(
                    Seq::<(u64, String)>::empty(),
                    Seq::<(u64, Team)>::empty(),
                    e,
                    ra,
                );
            lemma_entryless_shape(doc@, e, ra);
            crate::text::lemma_dec_of_digits(eula_message as nat);
            crate::text::lemma_dec_of_digits(e.1 as nat);
            assert forall|m: int| p2 <= m < p3 implies crate::text::is_dec_digit(
                #[trigger] doc@[m],
            ) by {
                assert(doc@[m] == doc@.subrange(p2 as int, p3 as int)[m - p2]);
            }
            assert forall|m: int|
                p2 <= m < p2 + dec_of(e.1 as nat).len() implies crate::text::is_dec_digit(
                #[trigger] doc@[m],
            ) by {
                assert(doc@[m] == doc@.subrange(
                    p2 as int,
                    p2 + dec_of(e.1 as nat).len() as int,
                )[m - p2]);
            }
            lemma_dec_end_unique(
                doc@,
                p2 as int,
                p3 as int,
                p2 + dec_of(e.1 as nat).len(),
            );
        }
    }
    let p4 = match expect_lit(&doc, p3, ",\"role_assign_channel_id\":") {
        Some(p) => p,
        None => {
            proof {
                if entryless_state_doc(doc@) {
                    let (e, ra) = choose|e: (u64, u64), ra: (u64, u64)|
                        doc@ == state_json(
                            Seq::<(u64, String)>::empty(),
                            Seq::<(u64, Team)>::empty(),
                            e,
                            ra,
                        );
                    lemma_entryless_shape(doc@, e, ra);
                }
            }
            return None;
        },
    };
    let (ra_channel, p5) = match read_json_u64(&doc, p4) {
        Some(x) => x,
        None => {
            proof {
                if entryless_state_doc(doc@) {
                    let (e, ra) = choose|e: (u64, u64), ra: (u64, u64)|
                        doc@ == state_json(
                            Seq::<(u64, String)>::empty(),
                            Seq::<(u64, Team)>::empty(),
                            e,
                            ra,
                        );
                    lemma_entryless_shape(doc@, e, ra);
                    assert(dec_of_at(doc@, p4 as int, ra.0));
                }
            }
            return None;
        },
    };
    proof {
        if entryless_state_doc(doc@) {
            let (e, ra) = choose|e: (u64, u64), ra: (u64, u64)|
                doc@ == state_json(
                    Seq::<(u64, String)>::empty(),
                    Seq::<(u64, Team)>::empty(),
                    e,
                    ra,
                );
            lemma_entryless_shape(doc@, e, ra);
            crate::text::lemma_dec_of_digits(ra_channel as nat);
            crate::text::lemma_dec_of_digits(ra.0 as nat);
            assert forall|m: int| p4 <= m < p5 implies crate::text::is_dec_digit(
                #[trigger] doc@[m],
            ) by {
                assert(doc@[m] == doc@.subrange(p4 as int, p5 as int)[m - p4]);
            }
            assert forall|m: int|
                p4 <= m < p4 + dec_of(ra.0 as nat).len() implies crate::text::is_dec_digit(
                #[trigger] doc@[m],
            ) by {
                assert(doc@[m] == doc@.subrange(
                    p4 as int,
                    p4 + dec_of(ra.0 as nat).len() as int,
                )[m - p4]);
            }
            lemma_dec_end_unique(
                doc@,
                p4 as int,
                p5 as int,
                p4 + dec_of(ra.0 as nat).len(),
            );
        }
    }
    let p6 = match expect_lit(&doc, p5, ",\"role_assign_message_id\":") {
        Some(p) => p,
        None => {
            proof {
                if entryless_state_doc(doc@) {
                    let (e, ra) = choose|e: (u64, u64), ra: (u64, u64)|
                        doc@ == state_json(
                            Seq::<(u64, String)>::empty(),
                            Seq::<(u64, Team)>::empty(),
                            e,
                            ra,
                        );
                    lemma_entryless_shape(doc@, e, ra);
                }
            }
            return None;
        },
    };
    let (ra_message, p7) = match read_json_u64(&doc, p6) {
        Some(x) => x,
        None => {
            proof {
                if entryless_state_doc(doc@) {
                    let (e, ra) = choose|e: (u64, u64), ra: (u64, u64)|
                        doc@ == state_json(
                            Seq::<(u64, String)>::empty(),
                            Seq::<(u64, Team)>::empty(),
                            e,
                            ra,
                        );
                    lemma_entryless_shape(doc@, e, ra);
                    assert(dec_of_at(doc@, p6 as int, ra.1));
                }
            }
            return None;
        },
    };
    proof {
        if entryless_state_doc(doc@) {
            let (e, ra) = choose|e: (u64, u64), ra: (u64, u64)|
                doc@ == state_json(
                    Seq::<(u64, String)>::empty(),
                    Seq::<(u64, Team)>::empty(),
                    e,
                    ra,
                );
            lemma_entryless_shape(doc@, e, ra);
            crate::text::lemma_dec_of_digits(ra_message as nat);
            crate::text::lemma_dec_of_digits(ra.1 as nat);
            assert forall|m: int| p6 <= m < p7 implies crate::text::is_dec_digit(
                #[trigger] doc@[m],
            ) by {
                assert(doc@[m] == doc@.subrange(p6 as int, p7 as int)[m - p6]);
            }
            assert forall|m: int|
                p6 <= m < p6 + dec_of(ra.1 as nat).len() implies crate::text::is_dec_digit(
                #[trigger] doc@[m],
            ) by {
                assert(doc@[m] == doc@.subrange(
                    p6 as int,
                    p6 + dec_of(ra.1 as nat).len() as int,
                )[m - p6]);
            }
            lemma_dec_end_unique(
                doc@,
                p6 as int,
                p7 as int,
                p6 + dec_of(ra.1 as nat).len(),
            );
        }
    }
    let p8 = match expect_lit(&doc, p7, "}") {
        Some(p) => p,
        None => {
            proof {
                if entryless_state_doc(doc@) {
                    let (e, ra) = choose|e: (u64, u64), ra: (u64, u64)|
                        doc@ == state_json(
                            Seq::<(u64, String)>::empty(),
                            Seq::<(u64, Team)>::empty(),
                            e,
                            ra,
                        );
                    lemma_entryless_shape(doc@, e, ra);
                }
            }
            return None;
        },
    };
    if p8 != doc.len() {
        proof {
            if entryless_state_doc(doc@) {
                let (e, ra) = choose|e: (u64, u64), ra: (u64, u64)|
                    doc@ == state_json(
                        Seq::<(u64, String)>::empty(),
                        Seq::<(u64, Team)>::empty(),
                        e,
                        ra,
                    );
                lemma_entryless_shape(doc@, e, ra);
            }
        }
        return None;
    }
    state.set_eula(eula_channel, eula_message);
    state.set_role_assign(ra_channel, ra_message);
    proof {
        let g1 = teams_prefix + "},\"eula_channel_id\":"@;
        let g2 = g1 + dec_of(eula_channel as nat);
        let g3 = g2 + ",\"eula_message_id\":"@;
        let g4 = g3 + dec_of(eula_message as nat);
        let g5 = g4 + ",\"role_assign_channel_id\":"@;
        let g6 = g5 + dec_of(ra_channel as nat);
        let g7 = g6 + ",\"role_assign_message_id\":"@;
        let g8 = g7 + dec_of(ra_message as nat);
        let g9 = g8 + "}"@;
        assert(doc@.subrange(0, pos as int) =~= doc@.subrange(0, pos as int));
        assert(doc@.subrange(0, pos as int) =~= g1) by {
            assert(doc@.subrange(0, pos as int) =~= teams_prefix + doc@.subrange(
                teams_prefix.len() as int,
                pos as int,
            ));
        }
        assert(doc@.subrange(0, p1 as int) =~= doc@.subrange(0, pos as int) + doc@.subrange(
            pos as int,
            p1 as int,
        ));
        assert(doc@.subrange(0, p1 as int) == g2);
        assert(doc@.subrange(0, p2 as int) =~= doc@.subrange(0, p1 as int) + doc@.subrange(
            p1 as int,
            p2 as int,
        ));
        assert(doc@.subrange(0, p2 as int) == g3);
        assert(doc@.subrange(0, p3 as int) =~= doc@.subrange(0, p2 as int) + doc@.subrange(
            p2 as int,
            p3 as int,
        ));
        assert(doc@.subrange(0, p3 as int) == g4);
        assert(doc@.subrange(0, p4 as int) =~= doc@.subrange(0, p3 as int) + doc@.subrange(
            p3 as int,
            p4 as int,
        ));
        assert(doc@.subrange(0, p4 as int) == g5);
        assert(doc@.subrange(0, p5 as int) =~= doc@.subrange(0, p4 as int) + doc@.subrange(
            p4 as int,
            p5 as int,
        ));
        assert(doc@.subrange(0, p5 as int) == g6);
        assert(doc@.subrange(0, p6 as int) =~= doc@.subrange(0, p5 as int) + doc@.subrange(
            p5 as int,
            p6 as int,
        ));
        assert(doc@.subrange(0, p6 as int) == g7);
        assert(doc@.subrange(0, p7 as int) =~= doc@.subrange(0, p6 as int) + doc@.subrange(
            p6 as int,
            p7 as int,
        ));
        assert(doc@.subrange(0, p7 as int) == g8);
        assert(doc@.subrange(0, p8 as int) =~= doc@.subrange(0, p7 as int) + doc@.subrange(
            p7 as int,
            p8 as int,
        ));
        assert(doc@.subrange(0, p8 as int) == g9);
        assert(doc@ =~= doc@.subrange(0, p8 as int));
        assert(state_json(
            state.theme_entries(),
            state.team_entries(),
            state.eula_ref(),
            state.role_assign_ref(),
        ) == g9);
        assert(doc_str@ == doc@);
    }
    Some(state)
}

} // verus!
