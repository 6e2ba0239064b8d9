//! The on-disk encodings of the caches: the submission record (two
//! answer-to-response maps), the leaderboard snapshot (two numeric
//! arrays), and the practice log (one numeric array).  Each format has a
//! canonical encoder and a parser, and parsing an encoding gives back
//! exactly what was encoded.

use vstd::prelude::*;

use crate::classify::{digit_val, digits_end, digits_val, is_digit, lemma_digits_end_bounds};
use crate::store::Entries;
use crate::text::{digit_char, spec_dec};

verus! {

// --- strings -----------------------------------------------------------

/// One character of a string, escaped: quotes and backslashes take a
/// leading backslash.
pub open spec fn esc_char(c: char) -> Seq<char> {
    if c == '"' || c == '\\' {
        seq!['\\', c]
    } else {
        seq![c]
    }
}

/// A string's characters, escaped.
pub open spec fn esc(t: Seq<char>) -> Seq<char>
    decreases t.len(),
{
    if t.len() == 0 {
        Seq::empty()
    } else {
        esc_char(t.first()) + esc(t.drop_first())
    }
}

/// A quoted, escaped string.
pub open spec fn enc_string(t: Seq<char>) -> Seq<char> {
    seq!['"'] + esc(t) + seq!['"']
}

/// Parse a string body up to its closing quote: the unescaped content
/// and the remainder after the quote.
pub open spec fn sp_str_body(s: Seq<char>) -> Option<(Seq<char>, Seq<char>)>
    decreases s.len(),
{
    if s.len() == 0 {
        None
    } else if s.first() == '"' {
        Some((Seq::empty(), s.drop_first()))
    } else if s.first() == '\\' {
        if s.len() < 2 {
            None
        } else if s[1] == '"' || s[1] == '\\' {
            match sp_str_body(s.skip(2)) {
                Some((t, r)) => Some((seq![s[1]] + t, r)),
                None => None,
            }
        } else {
            None
        }
    } else {
        match sp_str_body(s.skip(1)) {
            Some((t, r)) => Some((seq![s.first()] + t, r)),
            None => None,
        }
    }
}

/// Parse a quoted string.
pub open spec fn sp_string(s: Seq<char>) -> Option<(Seq<char>, Seq<char>)> {
    if s.len() > 0 && s.first() == '"' {
        sp_str_body(s.drop_first())
    } else {
        None
    }
}

pub proof fn lemma_str_body_round(t: Seq<char>, rest: Seq<char>)
    ensures
        sp_str_body(esc(t) + seq!['"'] + rest) == Some((t, rest)),
    decreases t.len(),
{
    let s = esc(t) + seq!['"'] + rest;
    if t.len() == 0 {
        assert(s =~= seq!['"'] + rest);
        assert(s.first() == '"');
        assert(s.drop_first() =~= rest);
    } else {
        let c = t.first();
        let t2 = t.drop_first();
        lemma_str_body_round(t2, rest);
        if c == '"' || c == '\\' {
            assert(esc_char(c) =~= seq!['\\', c]);
            assert(s =~= seq!['\\', c] + (esc(t2) + seq!['"'] + rest));
            assert(s.first() == '\\');
            assert(s[1] == c);
            assert(s.skip(2) =~= esc(t2) + seq!['"'] + rest);
            assert(seq![s[1]] + t2 =~= t);
        } else {
            assert(esc_char(c) =~= seq![c]);
            assert(s =~= seq![c] + (esc(t2) + seq!['"'] + rest));
            assert(s.first() == c);
            assert(s.skip(1) =~= esc(t2) + seq!['"'] + rest);
            assert(seq![s.first()] + t2 =~= t);
        }
    }
}

pub proof fn lemma_string_round(t: Seq<char>, rest: Seq<char>)
    ensures
        sp_string(enc_string(t) + rest) == Some((t, rest)),
{
    let s = enc_string(t) + rest;
    assert(s.first() == '"');
    assert(s.drop_first() =~= esc(t) + seq!['"'] + rest);
    lemma_str_body_round(t, rest);
}

proof fn lemma_sp_str_body_advances(s: Seq<char>)
    ensures
        sp_str_body(s) matches Some((t, r)) ==> r.len() < s.len(),
    decreases s.len(),
{
    if s.len() > 0 && s.first() != '"' {
        if s.first() == '\\' {
            if s.len() >= 2 && (s[1] == '"' || s[1] == '\\') {
                lemma_sp_str_body_advances(s.skip(2));
            }
        } else {
            lemma_sp_str_body_advances(s.skip(1));
        }
    }
}

// --- maps of string pairs ----------------------------------------------

/// One `"key":"value"` entry.
pub open spec fn enc_entry(e: (Seq<char>, Seq<char>)) -> Seq<char> {
    enc_string(e.0) + seq![':'] + enc_string(e.1)
}

/// Comma-joined entries.
pub open spec fn enc_entries(es: Entries) -> Seq<char>
    decreases es.len(),
{
    if es.len() == 0 {
        Seq::empty()
    } else if es.len() == 1 {
        enc_entry(es[0])
    } else {
        enc_entry(es[0]) + seq![','] + enc_entries(es.drop_first())
    }
}

/// A braced map.
pub open spec fn enc_map(es: Entries) -> Seq<char> {
    seq!['{'] + enc_entries(es) + seq!['}']
}

/// Parse one entry.
pub open spec fn sp_entry(s: Seq<char>) -> Option<((Seq<char>, Seq<char>), Seq<char>)> {
    match sp_string(s) {
        Some((k, r1)) => if r1.len() > 0 && r1.first() == ':' {
            match sp_string(r1.drop_first()) {
                Some((v, r2)) => Some(((k, v), r2)),
                None => None,
            }
        } else {
            None
        },
        None => None,
    }
}

proof fn lemma_sp_entry_advances(s: Seq<char>)
    ensures
        sp_entry(s) matches Some((e, r)) ==> r.len() < s.len(),
{
    if sp_entry(s) is Some {
        lemma_sp_str_body_advances(s.drop_first());
        let (k, r1) = sp_string(s)->Some_0;
        lemma_sp_str_body_advances(r1.drop_first().drop_first());
    }
}

/// Parse one or more comma-separated entries.
pub open spec fn sp_entries(s: Seq<char>) -> Option<(Entries, Seq<char>)>
    decreases s.len()
        via sp_entries_dec
{
    match sp_entry(s) {
        Some((e, r)) => if r.len() > 0 && r.first() == ',' {
            match sp_entries(r.drop_first()) {
                Some((es, r2)) => Some((seq![e] + es, r2)),
                None => None,
            }
        } else {
            Some((seq![e], r))
        },
        None => None,
    }
}

#[via_fn]
proof fn sp_entries_dec(s: Seq<char>) {
    lemma_sp_entry_advances(s);
}

/// Parse a braced map.
pub open spec fn sp_map(s: Seq<char>) -> Option<(Entries, Seq<char>)> {
    if s.len() >= 2 && s.first() == '{' && s[1] == '}' {
        Some((Seq::empty(), s.skip(2)))
    } else if s.len() > 0 && s.first() == '{' {
        match sp_entries(s.drop_first()) {
            Some((es, r)) => if r.len() > 0 && r.first() == '}' {
                Some((es, r.drop_first()))
            } else {
                None
            },
            None => None,
        }
    } else {
        None
    }
}

pub proof fn lemma_entry_round(e: (Seq<char>, Seq<char>), rest: Seq<char>)
    ensures
        sp_entry(enc_entry(e) + rest) == Some((e, rest)),
{
    let s = enc_entry(e) + rest;
    assert(s =~= enc_string(e.0) + (seq![':'] + enc_string(e.1) + rest));
    lemma_string_round(e.0, seq![':'] + enc_string(e.1) + rest);
    let r1 = seq![':'] + enc_string(e.1) + rest;
    assert(r1.first() == ':');
    assert(r1.drop_first() =~= enc_string(e.1) + rest);
    lemma_string_round(e.1, rest);
}

pub proof fn lemma_entries_round(es: Entries, rest: Seq<char>)
    requires
        es.len() >= 1,
        !(rest.len() > 0 && rest.first() == ','),
    ensures
        sp_entries(enc_entries(es) + rest) == Some((es, rest)),
    decreases es.len(),
{
    let s = enc_entries(es) + rest;
    if es.len() == 1 {
        lemma_entry_round(es[0], rest);
        assert(seq![es[0]] =~= es);
    } else {
        let tail = es.drop_first();
        let r = seq![','] + enc_entries(tail) + rest;
        assert(s =~= enc_entry(es[0]) + r);
        lemma_entry_round(es[0], r);
        assert(r.first() == ',');
        assert(r.drop_first() =~= enc_entries(tail) + rest);
        lemma_entries_round(tail, rest);
        assert(seq![es[0]] + tail =~= es);
    }
}

pub proof fn lemma_map_round(es: Entries, rest: Seq<char>)
    requires
        !(rest.len() > 0 && rest.first() == ','),
    ensures
        sp_map(enc_map(es) + rest) == Some((es, rest)),
{
    let s = enc_map(es) + rest;
    assert(s.first() == '{');
    if es.len() == 0 {
        assert(enc_entries(es) =~= Seq::<char>::empty());
        assert(s =~= seq!['{', '}'] + rest);
        assert(s[1] == '}');
        assert(s.skip(2) =~= rest);
    } else {
        let inner = enc_entries(es) + (seq!['}'] + rest);
        assert(s.drop_first() =~= inner);
        lemma_entries_round(es, seq!['}'] + rest);
        assert((seq!['}'] + rest).first() == '}');
        assert((seq!['}'] + rest).drop_first() =~= rest);
        assert(enc_entries(es).first() == '"') by {
            assert(enc_entries(es)[0] == enc_entry(es[0])[0]);
            assert(enc_entry(es[0])[0] == enc_string(es[0].0)[0]);
        }
        assert(s[1] == '"');
    }
}

// --- the submission record ---------------------------------------------

/// The opening of the record: the part-1 key.
pub open spec fn record_head() -> Seq<char> {
    seq!['{', '"', '1', '"', ':']
}

/// The separator before the part-2 key.
pub open spec fn record_mid() -> Seq<char> {
    seq![',', '"', '2', '"', ':']
}

/// The canonical encoding of a day's submission record: an object with
/// the two parts' maps under the keys `1` and `2`.
pub open spec fn enc_record(m1: Entries, m2: Entries) -> Seq<char> {
    record_head() + enc_map(m1) + record_mid() + enc_map(m2) + seq!['}']
}

/// Parse a whole submission record; the text must hold nothing else.
pub open spec fn sp_record(s: Seq<char>) -> Option<(Entries, Entries)> {
    if s.len() >= 5 && s.take(5) == record_head() {
        match sp_map(s.skip(5)) {
            Some((m1, r)) => if r.len() >= 5 && r.take(5) == record_mid() {
                match sp_map(r.skip(5)) {
                    Some((m2, r2)) => if r2 == seq!['}'] {
                        Some((m1, m2))
                    } else {
                        None
                    },
                    None => None,
                }
            } else {
                None
            },
            None => None,
        }
    } else {
        None
    }
}

/// Parsing a record's canonical encoding gives back exactly the two maps
/// that were encoded: the round trip over the submission cache file.
pub proof fn lemma_record_round_trip(m1: Entries, m2: Entries)
    ensures
        sp_record(enc_record(m1, m2)) == Some((m1, m2)),
{
    let s = enc_record(m1, m2);
    let rest1 = record_mid() + enc_map(m2) + seq!['}'];
    assert(s.take(5) =~= record_head());
    assert(s.skip(5) =~= enc_map(m1) + rest1);
    assert(rest1.first() == ',');
    lemma_map_round_comma(m1, rest1);
    assert(rest1.take(5) =~= record_mid());
    assert(rest1.skip(5) =~= enc_map(m2) + seq!['}']);
    lemma_map_round(m2, seq!['}']);
}

/// As `lemma_map_round`, for a remainder that begins with the record's
/// mid separator: the brace closing the map still ends the entry list.
pub proof fn lemma_map_round_comma(es: Entries, rest: Seq<char>)
    requires
        rest.len() > 0 && rest.first() == ',',
    ensures
        sp_map(enc_map(es) + rest) == Some((es, rest)),
{
    let s = enc_map(es) + rest;
    assert(s.first() == '{');
    if es.len() == 0 {
        assert(enc_entries(es) =~= Seq::<char>::empty());
        assert(s =~= seq!['{', '}'] + rest);
        assert(s[1] == '}');
        assert(s.skip(2) =~= rest);
    } else {
        let close = seq!['}'] + rest;
        let inner = enc_entries(es) + close;
        assert(s.drop_first() =~= inner);
        assert(close.first() == '}');
        lemma_entries_round(es, close);
        assert(close.drop_first() =~= rest);
        assert(enc_entries(es).first() == '"') by {
            assert(enc_entries(es)[0] == enc_entry(es[0])[0]);
            assert(enc_entry(es[0])[0] == enc_string(es[0].0)[0]);
        }
        assert(s[1] == '"');
    }
}

// --- executable encoder ------------------------------------------------

proof fn lemma_esc_push(t: Seq<char>, c: char)
    ensures
        esc(t.push(c)) == esc(t) + esc_char(c),
    decreases t.len(),
{
    if t.len() == 0 {
        assert(t.push(c) =~= seq![c]);
        assert(t.push(c).drop_first() =~= Seq::<char>::empty());
        assert(esc(t.push(c)) == esc_char(c) + esc(Seq::<char>::empty()));
        assert(esc(Seq::<char>::empty()) =~= Seq::<char>::empty());
        assert(esc(t) =~= Seq::<char>::empty());
        assert(esc_char(c) + Seq::<char>::empty() =~= Seq::<char>::empty() + esc_char(c));
    } else {
        assert(t.push(c).first() == t.first());
        assert(t.push(c).drop_first() =~= t.drop_first().push(c));
        lemma_esc_push(t.drop_first(), c);
        assert(esc_char(t.first()) + (esc(t.drop_first()) + esc_char(c)) =~= (esc_char(t.first())
            + esc(t.drop_first())) + esc_char(c));
    }
}

fn push_escaped(t: &str, out: &mut Vec<char>)
    ensures
        final(out)@ == old(out)@ + esc(t@),
{
    let chars = crate::text::to_chars(t);
    let n = chars.len();
    let mut i: usize = 0;
    proof {
        assert(t@.take(0) =~= Seq::<char>::empty());
        assert(esc(t@.take(0)) =~= Seq::<char>::empty());
        assert(out@ =~= old(out)@ + esc(t@.take(0)));
    }
    while i < n
        invariant
            i <= n,
            n == chars@.len(),
            chars@ == t@,
            out@ == old(out)@ + esc(t@.take(i as int)),
        decreases n - i,
    {
        let c = chars[i];
        if c == '"' || c == '\\' {
            out.push('\\');
            out.push(c);
        } else {
            out.push(c);
        }
        proof {
            assert(t@.take(i + 1) =~= t@.take(i as int).push(t@[i as int]));
            lemma_esc_push(t@.take(i as int), t@[i as int]);
            assert(out@ =~= old(out)@ + esc(t@.take(i + 1)));
        }
        i = i + 1;
    }
    proof {
        assert(t@.take(n as int) =~= t@);
    }
}

fn push_string_enc(t: &str, out: &mut Vec<char>)
    ensures
        final(out)@ == old(out)@ + enc_string(t@),
{
    out.push('"');
    push_escaped(t, out);
    out.push('"');
    proof {
        assert(final(out)@ =~= old(out)@ + enc_string(t@));
    }
}

proof fn lemma_enc_entries_push(es: Entries, e: (Seq<char>, Seq<char>))
    ensures
        enc_entries(es.push(e)) == if es.len() == 0 {
            enc_entry(e)
        } else {
            enc_entries(es) + seq![','] + enc_entry(e)
        },
    decreases es.len(),
{
    if es.len() == 0 {
        assert(es.push(e) =~= seq![e]);
        assert(es.push(e)[0] == e);
    } else {
        assert(es.push(e).first() == es.first());
        assert(es.push(e).drop_first() =~= es.drop_first().push(e));
        lemma_enc_entries_push(es.drop_first(), e);
        if es.len() == 1 {
            assert(es.push(e).len() == 2);
            assert(enc_entries(es.push(e)) =~= enc_entries(es) + seq![','] + enc_entry(e));
        } else {
            assert(enc_entries(es.push(e)) =~= enc_entries(es) + seq![','] + enc_entry(e));
        }
    }
}

fn encode_map_into(m: &crate::store::AnswerMap, out: &mut Vec<char>)
    ensures
        final(out)@ == old(out)@ + enc_map(m@),
{
    out.push('{');
    let n = m.len();
    let mut i: usize = 0;
    proof {
        assert(m@.take(0) =~= Seq::<(Seq<char>, Seq<char>)>::empty());
        assert(enc_entries(m@.take(0)) =~= Seq::<char>::empty());
        assert(out@ =~= old(out)@ + seq!['{'] + enc_entries(m@.take(0)));
    }
    while i < n
        invariant
            i <= n,
            n == m@.len(),
            out@ == old(out)@ + seq!['{'] + enc_entries(m@.take(i as int)),
        decreases n - i,
    {
        if i > 0 {
            out.push(',');
        }
        let (k, v) = m.entry_at(i);
        push_string_enc(k.as_str(), out);
        out.push(':');
        push_string_enc(v.as_str(), out);
        proof {
            assert(m@.take(i + 1) =~= m@.take(i as int).push(m@[i as int]));
            lemma_enc_entries_push(m@.take(i as int), m@[i as int]);
            assert(enc_entry(m@[i as int]) =~= enc_string(m@[i as int].0) + seq![':'] + enc_string(
                m@[i as int].1,
            ));
            assert(out@ =~= old(out)@ + seq!['{'] + enc_entries(m@.take(i + 1)));
        }
        i = i + 1;
    }
    out.push('}');
    proof {
        assert(m@.take(n as int) =~= m@);
        assert(final(out)@ =~= old(out)@ + enc_map(m@));
    }
}

/// Encode a day's submission record for its cache file.
pub fn encode_day_record(rec: &crate::store::DayRecord) -> (r: String)
    ensures
        r@ == enc_record(rec.part1@, rec.part2@),
{
    let mut out: Vec<char> = Vec::new();
    out.push('{');
    out.push('"');
    out.push('1');
    out.push('"');
    out.push(':');
    proof {
        assert(out@ =~= record_head());
    }
    encode_map_into(&rec.part1, &mut out);
    out.push(',');
    out.push('"');
    out.push('2');
    out.push('"');
    out.push(':');
    proof {
        assert(out@ =~= record_head() + enc_map(rec.part1@) + record_mid());
    }
    encode_map_into(&rec.part2, &mut out);
    out.push('}');
    proof {
        assert(out@ =~= enc_record(rec.part1@, rec.part2@));
    }
    crate::text::from_chars(&out)
}

// --- executable parser --------------------------------------------------

/// The parse that remains once `pre` has been read.
pub open spec fn prefixed(pre: Seq<char>, o: Option<(Seq<char>, Seq<char>)>) -> Option<
    (Seq<char>, Seq<char>),
> {
    match o {
        Some((t, r)) => Some((pre + t, r)),
        None => None,
    }
}

fn p_str_body(v: &Vec<char>, i: usize) -> (r: Option<(Vec<char>, usize)>)
    requires
        i <= v@.len(),
    ensures
        ({
            let sp = sp_str_body(v@.skip(i as int));
            match r {
                Some((tv, j)) => sp == Some((tv@, v@.skip(j as int))) && i <= j <= v@.len(),
                None => sp is None,
            }
        }),
{
    let n = v.len();
    let mut j: usize = i;
    let mut out: Vec<char> = Vec::new();
    loop
        invariant
            i <= j <= n,
            n == v@.len(),
            sp_str_body(v@.skip(i as int)) == prefixed(out@, sp_str_body(v@.skip(j as int))),
        ensures
            i <= j <= n,
            n == v@.len(),
            sp_str_body(v@.skip(i as int)) == prefixed(out@, sp_str_body(v@.skip(j as int))),
            j == n || v@[j as int] == '"' || (v@[j as int] == '\\' && (j + 1 == n || !(v@[j + 1]
                == '"' || v@[j + 1] == '\\'))),
        decreases n - j,
    {
        if j >= n {
            break;
        }
        let c = v[j];
        if c == '"' {
            break;
        }
        if c == '\\' {
            if j + 1 >= n {
                break;
            }
            let c2 = v[j + 1];
            if c2 == '"' || c2 == '\\' {
                proof {
                    let s = v@.skip(j as int);
                    assert(s.first() == '\\');
                    assert(s[1] == c2);
                    assert(s.skip(2) =~= v@.skip(j + 2));
                    assert(sp_str_body(s) == prefixed(seq![c2], sp_str_body(v@.skip(j + 2))));
                    lemma_prefixed_assoc(out@, seq![c2], sp_str_body(v@.skip(j + 2)));
                }
                out.push(c2);
                j = j + 2;
            } else {
                break;
            }
        } else {
            proof {
                let s = v@.skip(j as int);
                assert(s.first() == c);
                assert(s.skip(1) =~= v@.skip(j + 1));
                assert(sp_str_body(s) == prefixed(seq![c], sp_str_body(v@.skip(j + 1))));
                lemma_prefixed_assoc(out@, seq![c], sp_str_body(v@.skip(j + 1)));
            }
            out.push(c);
            j = j + 1;
        }
    }
    if j < n {
        let c = v[j];
        if c == '"' {
            proof {
                let s = v@.skip(j as int);
                assert(s.first() == '"');
                assert(s.drop_first() =~= v@.skip(j + 1));
                assert(out@ + Seq::<char>::empty() =~= out@);
            }
            return Some((out, j + 1));
        }
        proof {
            let s = v@.skip(j as int);
            assert(s.first() == '\\');
            if j + 1 < n {
                assert(s[1] == v@[j + 1]);
            } else {
                assert(s.len() < 2);
            }
        }
        return None;
    }
    proof {
        assert(v@.skip(j as int) =~= Seq::<char>::empty());
    }
    None
}

proof fn lemma_prefixed_assoc(a: Seq<char>, b: Seq<char>, o: Option<(Seq<char>, Seq<char>)>)
    ensures
        prefixed(a, prefixed(b, o)) == prefixed(a + b, o),
{
    match o {
        Some((t, r)) => {
            assert(a + (b + t) =~= (a + b) + t);
        },
        None => {},
    }
}

fn p_string(v: &Vec<char>, i: usize) -> (r: Option<(Vec<char>, usize)>)
    requires
        i <= v@.len(),
    ensures
        ({
            let sp = sp_string(v@.skip(i as int));
            match r {
                Some((tv, j)) => sp == Some((tv@, v@.skip(j as int))) && i <= j <= v@.len(),
                None => sp is None,
            }
        }),
{
    let n = v.len();
    if i < n && v[i] == '"' {
        proof {
            let s = v@.skip(i as int);
            assert(s.first() == '"');
            assert(s.drop_first() =~= v@.skip(i + 1));
        }
        p_str_body(v, i + 1)
    } else {
        proof {
            if i < n {
                assert(v@.skip(i as int).first() == v@[i as int]);
            } else {
                assert(v@.skip(i as int).len() == 0);
            }
        }
        None
    }
}

fn p_entry(v: &Vec<char>, i: usize) -> (r: Option<((String, String), usize)>)
    requires
        i <= v@.len(),
    ensures
        ({
            let sp = sp_entry(v@.skip(i as int));
            match r {
                Some((e, j)) => sp == Some(((e.0@, e.1@), v@.skip(j as int))) && i <= j
                    <= v@.len(),
                None => sp is None,
            }
        }),
{
    let n = v.len();
    match p_string(v, i) {
        None => None,
        Some((kv, j1)) => {
            if j1 < n && v[j1] == ':' {
                proof {
                    let r1 = v@.skip(j1 as int);
                    assert(r1.first() == ':');
                    assert(r1.drop_first() =~= v@.skip(j1 + 1));
                }
                match p_string(v, j1 + 1) {
                    None => None,
                    Some((vv, j2)) => {
                        let k = crate::text::from_chars(&kv);
                        let val = crate::text::from_chars(&vv);
                        Some(((k, val), j2))
                    },
                }
            } else {
                proof {
                    if j1 < n {
                        assert(v@.skip(j1 as int).first() == v@[j1 as int]);
                    } else {
                        assert(v@.skip(j1 as int).len() == 0);
                    }
                }
                None
            }
        },
    }
}

/// The entries parse that remains once `pre` has been read.
pub open spec fn prefixed_entries(pre: Entries, o: Option<(Entries, Seq<char>)>) -> Option<
    (Entries, Seq<char>),
> {
    match o {
        Some((es, r)) => Some((pre + es, r)),
        None => None,
    }
}

proof fn lemma_prefixed_entries_assoc(a: Entries, b: Entries, o: Option<(Entries, Seq<char>)>)
    ensures
        prefixed_entries(a, prefixed_entries(b, o)) == prefixed_entries(a + b, o),
{
    match o {
        Some((es, r)) => {
            assert(a + (b + es) =~= (a + b) + es);
        },
        None => {},
    }
}

fn p_entries(v: &Vec<char>, i: usize) -> (r: Option<(Vec<(String, String)>, usize)>)
    requires
        i <= v@.len(),
    ensures
        ({
            let sp = sp_entries(v@.skip(i as int));
            match r {
                Some((es, j)) => sp == Some(
                    (es@.map_values(|p: (String, String)| (p.0@, p.1@)), v@.skip(j as int)),
                ) && i <= j <= v@.len(),
                None => sp is None,
            }
        }),
{
    let n = v.len();
    let mut j: usize = i;
    let mut acc: Vec<(String, String)> = Vec::new();
    proof {
        assert(acc@.map_values(|p: (String, String)| (p.0@, p.1@)) =~= Seq::<
            (Seq<char>, Seq<char>),
        >::empty());
    }
    loop
        invariant
            i <= j <= n,
            n == v@.len(),
            sp_entries(v@.skip(i as int)) == prefixed_entries(
                acc@.map_values(|p: (String, String)| (p.0@, p.1@)),
                sp_entries(v@.skip(j as int)),
            ),
        ensures
            sp_entries(v@.skip(i as int)) is None,
        decreases n - j,
    {
        let ghost pre = acc@.map_values(|p: (String, String)| (p.0@, p.1@));
        match p_entry(v, j) {
            None => {
                break;
            },
            Some((e, j2)) => {
                if j2 < n && v[j2] == ',' {
                    proof {
                        let r = v@.skip(j2 as int);
                        assert(r.first() == ',');
                        assert(r.drop_first() =~= v@.skip(j2 + 1));
                        assert(sp_entries(v@.skip(j as int)) == prefixed_entries(
                            seq![(e.0@, e.1@)],
                            sp_entries(v@.skip(j2 + 1)),
                        ));
                        lemma_prefixed_entries_assoc(
                            pre,
                            seq![(e.0@, e.1@)],
                            sp_entries(v@.skip(j2 + 1)),
                        );
                    }
                    acc.push(e);
                    proof {
                        assert(acc@.map_values(|p: (String, String)| (p.0@, p.1@)) =~= pre.push(
                            (e.0@, e.1@),
                        ));
                        assert(pre + seq![(e.0@, e.1@)] =~= pre.push((e.0@, e.1@)));
                    }
                    j = j2 + 1;
                } else {
                    proof {
                        let r = v@.skip(j2 as int);
                        if j2 < n {
                            assert(r.first() == v@[j2 as int]);
                        } else {
                            assert(r.len() == 0);
                        }
                    }
                    acc.push(e);
                    proof {
                        assert(acc@.map_values(|p: (String, String)| (p.0@, p.1@)) =~= pre.push(
                            (e.0@, e.1@),
                        ));
                        assert(pre + seq![(e.0@, e.1@)] =~= pre.push((e.0@, e.1@)));
                        assert(sp_entries(v@.skip(j as int)) == Some(
                            (seq![(e.0@, e.1@)], v@.skip(j2 as int)),
                        ));
                    }
                    return Some((acc, j2));
                }
            },
        }
    }
    None
}

fn p_map(v: &Vec<char>, i: usize) -> (r: Option<(Vec<(String, String)>, usize)>)
    requires
        i <= v@.len(),
    ensures
        ({
            let sp = sp_map(v@.skip(i as int));
            match r {
                Some((es, j)) => sp == Some(
                    (es@.map_values(|p: (String, String)| (p.0@, p.1@)), v@.skip(j as int)),
                ) && i <= j <= v@.len(),
                None => sp is None,
            }
        }),
{
    let n = v.len();
    if !(i < n && v[i] == '{') {
        proof {
            if i < n {
                assert(v@.skip(i as int).first() == v@[i as int]);
            } else {
                assert(v@.skip(i as int).len() == 0);
            }
        }
        return None;
    }
    proof {
        assert(v@.skip(i as int).first() == '{');
    }
    if i + 1 < n && v[i + 1] == '}' {
        proof {
            assert(v@.skip(i as int)[1] == v@[i + 1]);
            assert(v@.skip(i as int).skip(2) =~= v@.skip(i + 2));
        }
        let es: Vec<(String, String)> = Vec::new();
        proof {
            assert(es@.map_values(|p: (String, String)| (p.0@, p.1@)) =~= Seq::<
                (Seq<char>, Seq<char>),
            >::empty());
        }
        return Some((es, i + 2));
    }
    proof {
        if i + 1 < n {
            assert(v@.skip(i as int)[1] == v@[i + 1]);
        }
        assert(v@.skip(i as int).drop_first() =~= v@.skip(i + 1));
    }
    match p_entries(v, i + 1) {
        None => None,
        Some((es, j)) => {
            if j < n && v[j] == '}' {
                proof {
                    let r = v@.skip(j as int);
                    assert(r.first() == '}');
                    assert(r.drop_first() =~= v@.skip(j + 1));
                }
                Some((es, j + 1))
            } else {
                proof {
                    if j < n {
                        assert(v@.skip(j as int).first() == v@[j as int]);
                    } else {
                        assert(v@.skip(j as int).len() == 0);
                    }
                }
                None
            }
        },
    }
}

/// Parse a day's submission record from its cache file.  `None` when the
/// text is not a record encoding, and also when either map repeats a
/// key: such a file was not written by this library and is treated as
/// corrupt.
pub fn parse_day_record(text: &str) -> (r: Option<crate::store::DayRecord>)
    ensures
        ({
            match sp_record(text@) {
                None => r is None,
                Some((m1, m2)) => if crate::store::unique_keys(m1) && crate::store::unique_keys(
                    m2,
                ) {
                    r matches Some(rec) && rec.part1@ == m1 && rec.part2@ == m2 && rec.wf()
                } else {
                    r is None
                },
            }
        }),
{
    let v = crate::text::to_chars(text);
    let n = v.len();
    if n < 5 || !(v[0] == '{' && v[1] == '"' && v[2] == '1' && v[3] == '"' && v[4] == ':') {
        proof {
            if n >= 5 && text@.take(5) == record_head() {
                assert(text@.take(5)[0] == text@[0]);
                assert(text@.take(5)[1] == text@[1]);
                assert(text@.take(5)[2] == text@[2]);
                assert(text@.take(5)[3] == text@[3]);
                assert(text@.take(5)[4] == text@[4]);
                assert(record_head()[0] == '{');
                assert(record_head()[1] == '"');
                assert(record_head()[2] == '1');
                assert(record_head()[3] == '"');
                assert(record_head()[4] == ':');
            }
        }
        return None;
    }
    proof {
        assert(text@.take(5) =~= record_head());
    }
    let m1 = match p_map(&v, 5) {
        None => {
            return None;
        },
        Some(x) => x,
    };
    let (es1, j) = m1;
    if n - j < 5 || !(v[j] == ',' && v[j + 1] == '"' && v[j + 2] == '2' && v[j + 3] == '"' && v[j
        + 4] == ':') {
        proof {
            let rem = text@.skip(j as int);
            if rem.len() >= 5 && rem.take(5) == record_mid() {
                assert(rem.take(5)[0] == rem[0] && rem[0] == text@[j as int]);
                assert(rem.take(5)[1] == rem[1] && rem[1] == text@[j + 1]);
                assert(rem.take(5)[2] == rem[2] && rem[2] == text@[j + 2]);
                assert(rem.take(5)[3] == rem[3] && rem[3] == text@[j + 3]);
                assert(rem.take(5)[4] == rem[4] && rem[4] == text@[j + 4]);
                assert(record_mid()[0] == ',');
                assert(record_mid()[1] == '"');
                assert(record_mid()[2] == '2');
                assert(record_mid()[3] == '"');
                assert(record_mid()[4] == ':');
            }
        }
        return None;
    }
    proof {
        let rem = text@.skip(j as int);
        assert(rem.take(5) =~= record_mid());
        assert(rem.skip(5) =~= text@.skip(j + 5));
    }
    let m2 = match p_map(&v, j + 5) {
        None => {
            return None;
        },
        Some(x) => x,
    };
    let (es2, j2) = m2;
    if !(j2 < n && n - j2 == 1 && v[j2] == '}') {
        proof {
            let r2 = text@.skip(j2 as int);
            if r2 == seq!['}'] {
                assert(r2.len() == 1);
                assert(r2[0] == text@[j2 as int]);
                assert(seq!['}'][0] == '}');
            }
        }
        return None;
    }
    proof {
        assert(text@.skip(j2 as int) =~= seq!['}']);
    }
    let p1 = match crate::store::AnswerMap::from_entries(es1) {
        None => {
            return None;
        },
        Some(m) => m,
    };
    let p2 = match crate::store::AnswerMap::from_entries(es2) {
        None => {
            return None;
        },
        Some(m) => m,
    };
    Some(crate::store::DayRecord { part1: p1, part2: p2 })
}

// --- numeric arrays -----------------------------------------------------

/// A machine-word sequence, as mathematical integers.
pub open spec fn ints_of(vs: Seq<u64>) -> Seq<int> {
    vs.map_values(|t: u64| t as int)
}

/// Some value in the sequence does not fit in a machine word.
pub open spec fn has_oversize(ns: Seq<int>) -> bool {
    exists|k: int| 0 <= k < ns.len() && ns[k] > u64::MAX
}

/// The parse carries a value that does not fit in a machine word.
pub open spec fn nums_oversize(o: Option<(Seq<int>, Seq<char>)>) -> bool {
    match o {
        Some((ns, r)) => has_oversize(ns),
        None => false,
    }
}

/// The snapshot parse carries a value that does not fit in a machine
/// word.
pub open spec fn snapshot_oversize(o: Option<(Seq<int>, Seq<int>)>) -> bool {
    match o {
        Some((l1, l2)) => has_oversize(l1) || has_oversize(l2),
        None => false,
    }
}

/// The log parse carries a value that does not fit in a machine word.
pub open spec fn log_oversize(o: Option<Seq<int>>) -> bool {
    match o {
        Some(ns) => has_oversize(ns),
        None => false,
    }
}

/// Parse one decimal number: its value and the remainder after its
/// digits.
pub open spec fn sp_num(s: Seq<char>) -> Option<(int, Seq<char>)> {
    let b = digits_end(s, 0);
    if b == 0 {
        None
    } else {
        Some((digits_val(s, 0, b), s.skip(b)))
    }
}

/// Comma-joined decimal numbers.
pub open spec fn enc_nums(ns: Seq<int>) -> Seq<char>
    decreases ns.len(),
{
    if ns.len() == 0 {
        Seq::empty()
    } else if ns.len() == 1 {
        spec_dec(ns[0])
    } else {
        spec_dec(ns[0]) + seq![','] + enc_nums(ns.drop_first())
    }
}

/// A bracketed numeric array.
pub open spec fn enc_num_array(ns: Seq<int>) -> Seq<char> {
    seq!['['] + enc_nums(ns) + seq![']']
}

proof fn lemma_sp_num_advances(s: Seq<char>)
    ensures
        sp_num(s) matches Some((n, r)) ==> r.len() < s.len(),
{
    if s.len() >= 0 {
        lemma_digits_end_bounds(s, 0);
    }
}

/// Parse one or more comma-separated numbers.
pub open spec fn sp_nums(s: Seq<char>) -> Option<(Seq<int>, Seq<char>)>
    decreases s.len()
        via sp_nums_dec
{
    match sp_num(s) {
        Some((x, r)) => if r.len() > 0 && r.first() == ',' {
            match sp_nums(r.drop_first()) {
                Some((ns, r2)) => Some((seq![x] + ns, r2)),
                None => None,
            }
        } else {
            Some((seq![x], r))
        },
        None => None,
    }
}

#[via_fn]
proof fn sp_nums_dec(s: Seq<char>) {
    lemma_sp_num_advances(s);
}

/// Parse a bracketed numeric array.
pub open spec fn sp_num_array(s: Seq<char>) -> Option<(Seq<int>, Seq<char>)> {
    if s.len() >= 2 && s.first() == '[' && s[1] == ']' {
        Some((Seq::empty(), s.skip(2)))
    } else if s.len() > 0 && s.first() == '[' {
        match sp_nums(s.drop_first()) {
            Some((ns, r)) => if r.len() > 0 && r.first() == ']' {
                Some((ns, r.drop_first()))
            } else {
                None
            },
            None => None,
        }
    } else {
        None
    }
}

/// The canonical encoding of a leaderboard snapshot: the two part time
/// lists as a pair of arrays.
pub open spec fn enc_snapshot(l1: Seq<int>, l2: Seq<int>) -> Seq<char> {
    seq!['['] + enc_num_array(l1) + seq![','] + enc_num_array(l2) + seq![']']
}

/// Parse a whole leaderboard snapshot; the text must hold nothing else.
pub open spec fn sp_snapshot(s: Seq<char>) -> Option<(Seq<int>, Seq<int>)> {
    if s.len() > 0 && s.first() == '[' {
        match sp_num_array(s.drop_first()) {
            Some((l1, r)) => if r.len() > 0 && r.first() == ',' {
                match sp_num_array(r.drop_first()) {
                    Some((l2, r2)) => if r2 == seq![']'] {
                        Some((l1, l2))
                    } else {
                        None
                    },
                    None => None,
                }
            } else {
                None
            },
            None => None,
        }
    } else {
        None
    }
}

/// Parse a whole practice log; the text must hold nothing else.
pub open spec fn sp_log(s: Seq<char>) -> Option<Seq<int>> {
    match sp_num_array(s) {
        Some((ns, r)) => if r.len() == 0 {
            Some(ns)
        } else {
            None
        },
        None => None,
    }
}

proof fn lemma_dec_digits(n: int)
    requires
        n >= 0,
    ensures
        spec_dec(n).len() >= 1,
        forall|i: int| 0 <= i < spec_dec(n).len() ==> is_digit(#[trigger] spec_dec(n)[i]),
    decreases n,
{
    if n < 10 {
        assert(is_digit(digit_char(n)));
        assert(spec_dec(n) =~= seq![digit_char(n)]);
    } else {
        lemma_dec_digits(n / 10);
        assert(is_digit(digit_char(n % 10)));
        assert(spec_dec(n) =~= spec_dec(n / 10).push(digit_char(n % 10)));
        assert forall|i: int| 0 <= i < spec_dec(n).len() implies is_digit(
            #[trigger] spec_dec(n)[i],
        ) by {
            if i < spec_dec(n / 10).len() {
                assert(spec_dec(n)[i] == spec_dec(n / 10)[i]);
            } else {
                assert(spec_dec(n)[i] == digit_char(n % 10));
            }
        }
    }
}

proof fn lemma_digits_val_congr(s1: Seq<char>, s2: Seq<char>, i: int, j: int)
    requires
        0 <= i <= j,
        j <= s1.len(),
        j <= s2.len(),
        forall|k: int| i <= k < j ==> s1[k] == s2[k],
    ensures
        digits_val(s1, i, j) == digits_val(s2, i, j),
    decreases j - i,
{
    if i < j {
        lemma_digits_val_congr(s1, s2, i, j - 1);
    }
}

proof fn lemma_digits_end_exact(s: Seq<char>, i: int, k: int)
    requires
        0 <= i <= k <= s.len(),
        forall|x: int| i <= x < k ==> is_digit(s[x]),
        k == s.len() || !is_digit(s[k]),
    ensures
        digits_end(s, i) == k,
    decreases k - i,
{
    if i < k {
        lemma_digits_end_exact(s, i + 1, k);
    }
}

proof fn lemma_dec_val(n: int)
    requires
        n >= 0,
    ensures
        digits_val(spec_dec(n), 0, spec_dec(n).len() as int) == n,
    decreases n,
{
    let s = spec_dec(n);
    if n < 10 {
        assert(s =~= seq![digit_char(n)]);
        assert(digits_val(s, 0, 0) == 0);
        assert(digits_val(s, 0, 1) == digit_val(digit_char(n)));
        assert(digit_val(digit_char(n)) == n);
    } else {
        lemma_dec_val(n / 10);
        let s0 = spec_dec(n / 10);
        let l0 = s0.len() as int;
        assert(s =~= s0.push(digit_char(n % 10)));
        assert(s.len() == l0 + 1);
        assert(digits_val(s, 0, l0 + 1) == digits_val(s, 0, l0) * 10 + digit_val(s[l0]));
        assert(s[l0] == digit_char(n % 10));
        assert(digit_val(digit_char(n % 10)) == n % 10);
        lemma_digits_val_congr(s, s0, 0, l0);
        assert(n == (n / 10) * 10 + n % 10) by (nonlinear_arith)
            requires
                n >= 10,
        ;
    }
}

pub proof fn lemma_num_round(n: int, rest: Seq<char>)
    requires
        n >= 0,
        !(rest.len() > 0 && is_digit(rest.first())),
    ensures
        sp_num(spec_dec(n) + rest) == Some((n, rest)),
{
    let d = spec_dec(n);
    let s = d + rest;
    lemma_dec_digits(n);
    let l = d.len() as int;
    assert forall|x: int| 0 <= x < l implies is_digit(s[x]) by {
        assert(s[x] == d[x]);
    }
    if rest.len() > 0 {
        assert(s[l] == rest.first());
    }
    lemma_digits_end_exact(s, 0, l);
    lemma_digits_val_congr(s, d, 0, l);
    lemma_dec_val(n);
    assert(s.skip(l) =~= rest);
}

pub proof fn lemma_nums_round(ns: Seq<int>, rest: Seq<char>)
    requires
        ns.len() >= 1,
        forall|k: int| 0 <= k < ns.len() ==> ns[k] >= 0,
        !(rest.len() > 0 && (rest.first() == ',' || is_digit(rest.first()))),
    ensures
        sp_nums(enc_nums(ns) + rest) == Some((ns, rest)),
    decreases ns.len(),
{
    let s = enc_nums(ns) + rest;
    if ns.len() == 1 {
        assert(s =~= spec_dec(ns[0]) + rest);
        lemma_num_round(ns[0], rest);
        assert(seq![ns[0]] =~= ns);
    } else {
        let tail = ns.drop_first();
        let r = seq![','] + enc_nums(tail) + rest;
        assert(s =~= spec_dec(ns[0]) + r);
        assert(r.first() == ',');
        assert(!is_digit(','));
        lemma_num_round(ns[0], r);
        assert(r.drop_first() =~= enc_nums(tail) + rest);
        lemma_nums_round(tail, rest);
        assert(seq![ns[0]] + tail =~= ns);
    }
}

proof fn lemma_enc_nums_head(ns: Seq<int>)
    requires
        ns.len() >= 1,
        forall|k: int| 0 <= k < ns.len() ==> ns[k] >= 0,
    ensures
        enc_nums(ns).len() > 0,
        is_digit(enc_nums(ns).first()),
{
    lemma_dec_digits(ns[0]);
    if ns.len() == 1 {
        assert(enc_nums(ns).first() == spec_dec(ns[0])[0]);
    } else {
        assert(enc_nums(ns).first() == spec_dec(ns[0])[0]);
    }
}

pub proof fn lemma_num_array_round(ns: Seq<int>, rest: Seq<char>)
    requires
        forall|k: int| 0 <= k < ns.len() ==> ns[k] >= 0,
    ensures
        sp_num_array(enc_num_array(ns) + rest) == Some((ns, rest)),
{
    let s = enc_num_array(ns) + rest;
    assert(s.first() == '[');
    if ns.len() == 0 {
        assert(enc_nums(ns) =~= Seq::<char>::empty());
        assert(s =~= seq!['[', ']'] + rest);
        assert(s[1] == ']');
        assert(s.skip(2) =~= rest);
    } else {
        let close = seq![']'] + rest;
        assert(s.drop_first() =~= enc_nums(ns) + close);
        assert(close.first() == ']');
        assert(!is_digit(']'));
        lemma_nums_round(ns, close);
        assert(close.drop_first() =~= rest);
        lemma_enc_nums_head(ns);
        assert(s[1] == enc_nums(ns).first());
        assert(!is_digit(']') && is_digit(s[1]));
    }
}

/// Parsing a snapshot's canonical encoding gives back exactly the two
/// time lists that were encoded.
pub proof fn lemma_snapshot_round_trip(l1: Seq<int>, l2: Seq<int>)
    requires
        forall|k: int| 0 <= k < l1.len() ==> l1[k] >= 0,
        forall|k: int| 0 <= k < l2.len() ==> l2[k] >= 0,
    ensures
        sp_snapshot(enc_snapshot(l1, l2)) == Some((l1, l2)),
{
    let s = enc_snapshot(l1, l2);
    assert(s.first() == '[');
    let rest1 = seq![','] + enc_num_array(l2) + seq![']'];
    assert(s.drop_first() =~= enc_num_array(l1) + rest1);
    lemma_num_array_round(l1, rest1);
    assert(rest1.first() == ',');
    assert(rest1.drop_first() =~= enc_num_array(l2) + seq![']']);
    lemma_num_array_round(l2, seq![']']);
}

/// Parsing a practice log's canonical encoding gives back exactly the
/// durations that were encoded.
pub proof fn lemma_log_round_trip(ns: Seq<int>)
    requires
        forall|k: int| 0 <= k < ns.len() ==> ns[k] >= 0,
    ensures
        sp_log(enc_num_array(ns)) == Some(ns),
{
    lemma_num_array_round(ns, Seq::<char>::empty());
    assert(enc_num_array(ns) + Seq::<char>::empty() =~= enc_num_array(ns));
}

// --- numeric executable code --------------------------------------------

proof fn lemma_digits_end_shift(s: Seq<char>, i: int, k: int)
    requires
        0 <= i,
        0 <= k,
        i + k <= s.len(),
    ensures
        digits_end(s.skip(i), k) == digits_end(s, i + k) - i,
    decreases s.len() - i - k,
{
    let t = s.skip(i);
    if k < t.len() && is_digit(t[k]) {
        assert(t[k] == s[i + k]);
        lemma_digits_end_shift(s, i, k + 1);
    } else {
        if k < t.len() {
            assert(t[k] == s[i + k]);
        }
    }
}

proof fn lemma_digits_val_shift(s: Seq<char>, i: int, a: int, b: int)
    requires
        0 <= i,
        0 <= a <= b,
        i + b <= s.len(),
    ensures
        digits_val(s.skip(i), a, b) == digits_val(s, i + a, i + b),
    decreases b - a,
{
    if a < b {
        assert(s.skip(i)[b - 1] == s[i + b - 1]);
        lemma_digits_val_shift(s, i, a, b - 1);
    }
}

fn p_num(v: &Vec<char>, i: usize) -> (r: Option<(u64, usize)>)
    requires
        i <= v@.len(),
    ensures
        r is None ==> (sp_num(v@.skip(i as int)) is None || (sp_num(v@.skip(i as int))
            matches Some((nv, rem)) && nv > u64::MAX)),
        r matches Some((x, j)) ==> sp_num(v@.skip(i as int)) == Some(
            (x as int, v@.skip(j as int)),
        ) && i <= j <= v@.len(),
{
    proof {
        lemma_digits_end_shift(v@, i as int, 0);
        lemma_digits_end_bounds(v@, i as int);
    }
    let (end, val, over) = crate::classify::scan_digits(v, i);
    if end == i {
        return None;
    }
    proof {
        lemma_digits_val_shift(v@, i as int, 0, end - i);
        assert(v@.skip(i as int).skip(end - i) =~= v@.skip(end as int));
    }
    if over {
        None
    } else {
        Some((val, end))
    }
}

/// The numbers parse that remains once `pre` has been read.
pub open spec fn prefixed_nums(pre: Seq<int>, o: Option<(Seq<int>, Seq<char>)>) -> Option<
    (Seq<int>, Seq<char>),
> {
    match o {
        Some((ns, r)) => Some((pre + ns, r)),
        None => None,
    }
}

proof fn lemma_prefixed_nums_assoc(a: Seq<int>, b: Seq<int>, o: Option<(Seq<int>, Seq<char>)>)
    ensures
        prefixed_nums(a, prefixed_nums(b, o)) == prefixed_nums(a + b, o),
{
    match o {
        Some((ns, r)) => {
            assert(a + (b + ns) =~= (a + b) + ns);
        },
        None => {},
    }
}

fn p_nums(v: &Vec<char>, i: usize) -> (r: Option<(Vec<u64>, usize)>)
    requires
        i <= v@.len(),
    ensures
        r is None ==> (sp_nums(v@.skip(i as int)) is None || nums_oversize(
            sp_nums(v@.skip(i as int)),
        )),
        r matches Some((vs, j)) ==> sp_nums(v@.skip(i as int)) == Some(
            (ints_of(vs@), v@.skip(j as int)),
        ) && i <= j <= v@.len(),
{
    let n = v.len();
    let mut j: usize = i;
    let mut acc: Vec<u64> = Vec::new();
    proof {
        assert(ints_of(acc@) =~= Seq::<int>::empty());
    }
    loop
        invariant
            i <= j <= n,
            n == v@.len(),
            sp_nums(v@.skip(i as int)) == prefixed_nums(
                ints_of(acc@),
                sp_nums(v@.skip(j as int)),
            ),
        ensures
            sp_nums(v@.skip(i as int)) is None || nums_oversize(sp_nums(v@.skip(i as int))),
        decreases n - j,
    {
        let ghost pre = ints_of(acc@);
        let ghost spj = sp_num(v@.skip(j as int));
        match p_num(v, j) {
            None => {
                proof {
                    if spj is Some {
                        let (nv, rem) = spj->Some_0;
                        assert(nv > u64::MAX);
                        match sp_nums(v@.skip(j as int)) {
                            Some((ns2, r2)) => {
                                assert(ns2[0] == nv);
                                let whole = prefixed_nums(pre, sp_nums(v@.skip(j as int)));
                                let nsw = (pre + ns2);
                                assert(whole == Some((nsw, r2)));
                                assert(nsw[pre.len() as int] == nv);
                                assert(has_oversize(nsw));
                            },
                            None => {},
                        }
                    }
                }
                break;
            },
            Some((x, j2)) => {
                if j2 < n && v[j2] == ',' {
                    proof {
                        let r = v@.skip(j2 as int);
                        assert(r.first() == ',');
                        assert(r.drop_first() =~= v@.skip(j2 + 1));
                        assert(sp_nums(v@.skip(j as int)) == prefixed_nums(
                            seq![x as int],
                            sp_nums(v@.skip(j2 + 1)),
                        ));
                        lemma_prefixed_nums_assoc(pre, seq![x as int], sp_nums(v@.skip(j2 + 1)));
                    }
                    acc.push(x);
                    proof {
                        assert(ints_of(acc@) =~= pre.push(x as int));
                        assert(pre + seq![x as int] =~= pre.push(x as int));
                    }
                    j = j2 + 1;
                } else {
                    proof {
                        let r = v@.skip(j2 as int);
                        if j2 < n {
                            assert(r.first() == v@[j2 as int]);
                        } else {
                            assert(r.len() == 0);
                        }
                        assert(sp_nums(v@.skip(j as int)) == Some(
                            (seq![x as int], v@.skip(j2 as int)),
                        ));
                    }
                    acc.push(x);
                    proof {
                        assert(ints_of(acc@) =~= pre.push(x as int));
                        assert(pre + seq![x as int] =~= pre.push(x as int));
                    }
                    return Some((acc, j2));
                }
            },
        }
    }
    None
}

#[verifier::rlimit(60)]
fn p_num_array(v: &Vec<char>, i: usize) -> (r: Option<(Vec<u64>, usize)>)
    requires
        i <= v@.len(),
    ensures
        r is None ==> (sp_num_array(v@.skip(i as int)) is None || nums_oversize(
            sp_num_array(v@.skip(i as int)),
        )),
        r matches Some((vs, j)) ==> sp_num_array(v@.skip(i as int)) == Some(
            (ints_of(vs@), v@.skip(j as int)),
        ) && i <= j <= v@.len(),
{
    let n = v.len();
    if !(i < n && v[i] == '[') {
        proof {
            if i < n {
                assert(v@.skip(i as int).first() == v@[i as int]);
            } else {
                assert(v@.skip(i as int).len() == 0);
            }
        }
        return None;
    }
    proof {
        assert(v@.skip(i as int).first() == '[');
    }
    if i + 1 < n && v[i + 1] == ']' {
        proof {
            assert(v@.skip(i as int)[1] == v@[i + 1]);
            assert(v@.skip(i as int).skip(2) =~= v@.skip(i + 2));
        }
        let es: Vec<u64> = Vec::new();
        proof {
            assert(ints_of(es@) =~= Seq::<int>::empty());
        }
        return Some((es, i + 2));
    }
    proof {
        if i + 1 < n {
            assert(v@.skip(i as int)[1] == v@[i + 1]);
        }
        assert(v@.skip(i as int).drop_first() =~= v@.skip(i + 1));
    }
    match p_nums(v, i + 1) {
        None => {
            proof {
                let s0 = v@.skip(i as int);
                let s1 = v@.skip(i + 1);
                assert(s0.drop_first() =~= s1);
                if sp_nums(s1) is Some {
                    let (ns2, rem2) = sp_nums(s1)->Some_0;
                    assert(has_oversize(ns2));
                    if rem2.len() > 0 && rem2.first() == ']' {
                        assert(sp_num_array(s0) == Some((ns2, rem2.drop_first())));
                    } else {
                        assert(sp_num_array(s0) is None);
                    }
                } else {
                    assert(sp_num_array(s0) is None);
                }
            }
            None
        },
        Some((ns, j)) => {
            if j < n && v[j] == ']' {
                proof {
                    let r = v@.skip(j as int);
                    assert(r.first() == ']');
                    assert(r.drop_first() =~= v@.skip(j + 1));
                }
                Some((ns, j + 1))
            } else {
                proof {
                    if j < n {
                        assert(v@.skip(j as int).first() == v@[j as int]);
                    } else {
                        assert(v@.skip(j as int).len() == 0);
                    }
                }
                None
            }
        },
    }
}

/// Parse a leaderboard snapshot from its cache file.  `None` when the
/// text is not a snapshot encoding (or a value does not fit in a
/// machine word).
#[verifier::rlimit(60)]
pub fn parse_snapshot(text: &str) -> (r: Option<(Vec<u64>, Vec<u64>)>)
    ensures
        r is None ==> (sp_snapshot(text@) is None || snapshot_oversize(sp_snapshot(text@))),
        r matches Some((v1, v2)) ==> sp_snapshot(text@) == Some((ints_of(v1@), ints_of(v2@))),
{
    let v = crate::text::to_chars(text);
    let n = v.len();
    if !(0 < n && v[0] == '[') {
        proof {
            if 0 < n {
                assert(text@.first() == text@[0]);
            }
        }
        return None;
    }
    proof {
        assert(text@.skip(0) =~= text@);
        assert(text@.drop_first() =~= text@.skip(1));
    }
    let a1 = match p_num_array(&v, 1) {
        None => {
            proof {
                let s1 = text@.skip(1);
                if sp_num_array(s1) is Some {
                    let (ns2, rem2) = sp_num_array(s1)->Some_0;
                    assert(has_oversize(ns2));
                    if rem2.len() > 0 && rem2.first() == ',' {
                        if sp_num_array(rem2.drop_first()) is Some {
                            let (ns3, rem3) = sp_num_array(rem2.drop_first())->Some_0;
                            if rem3 == seq![']'] {
                                assert(sp_snapshot(text@) == Some((ns2, ns3)));
                            } else {
                                assert(sp_snapshot(text@) is None);
                            }
                        } else {
                            assert(sp_snapshot(text@) is None);
                        }
                    } else {
                        assert(sp_snapshot(text@) is None);
                    }
                } else {
                    assert(sp_snapshot(text@) is None);
                }
            }
            return None;
        },
        Some(x) => x,
    };
    let (l1, j) = a1;
    if !(j < n && v[j] == ',') {
        proof {
            let r = text@.skip(j as int);
            if j < n {
                assert(r.first() == text@[j as int]);
            } else {
                assert(r.len() == 0);
            }
        }
        return None;
    }
    proof {
        let r = text@.skip(j as int);
        assert(r.first() == ',');
        assert(r.drop_first() =~= text@.skip(j + 1));
    }
    let a2 = match p_num_array(&v, j + 1) {
        None => {
            proof {
                let s2 = text@.skip(j + 1);
                if sp_num_array(s2) is Some {
                    let (ns3, rem3) = sp_num_array(s2)->Some_0;
                    assert(has_oversize(ns3));
                    if rem3 == seq![']'] {
                        assert(sp_snapshot(text@) == Some((ints_of(l1@), ns3)));
                    } else {
                        assert(sp_snapshot(text@) is None);
                    }
                } else {
                    assert(sp_snapshot(text@) is None);
                }
            }
            return None;
        },
        Some(x) => x,
    };
    let (l2, j2) = a2;
    if !(j2 < n && n - j2 == 1 && v[j2] == ']') {
        proof {
            let r2 = text@.skip(j2 as int);
            if r2 == seq![']'] {
                assert(r2.len() == 1);
                assert(r2[0] == text@[j2 as int]);
                assert(seq![']'][0] == ']');
            }
        }
        return None;
    }
    proof {
        assert(text@.skip(j2 as int) =~= seq![']']);
    }
    Some((l1, l2))
}

/// Parse a practice log from its cache file.  `None` when the text is
/// not a log encoding (or a value does not fit in a machine word).
#[verifier::rlimit(60)]
pub fn parse_practice_log(text: &str) -> (r: Option<Vec<u64>>)
    ensures
        r is None ==> (sp_log(text@) is None || log_oversize(sp_log(text@))),
        r matches Some(vs) ==> sp_log(text@) == Some(ints_of(vs@)),
{
    let v = crate::text::to_chars(text);
    let n = v.len();
    proof {
        assert(text@.skip(0) =~= text@);
    }
    match p_num_array(&v, 0) {
        None => {
            proof {
                if sp_num_array(text@) is Some {
                    let (ns2, rem2) = sp_num_array(text@)->Some_0;
                    assert(has_oversize(ns2));
                    if rem2.len() == 0 {
                        assert(sp_log(text@) == Some(ns2));
                    } else {
                        assert(sp_log(text@) is None);
                    }
                } else {
                    assert(sp_log(text@) is None);
                }
            }
            None
        },
        Some((ns, j)) => {
            if j == n {
                proof {
                    assert(text@.skip(j as int).len() == 0);
                    assert(text@.skip(j as int) =~= Seq::<char>::empty());
                }
                Some(ns)
            } else {
                proof {
                    assert(text@.skip(j as int).len() > 0);
                }
                None
            }
        },
    }
}

proof fn lemma_enc_nums_push(ns: Seq<int>, x: int)
    ensures
        enc_nums(ns.push(x)) == if ns.len() == 0 {
            spec_dec(x)
        } else {
            enc_nums(ns) + seq![','] + spec_dec(x)
        },
    decreases ns.len(),
{
    if ns.len() == 0 {
        assert(ns.push(x) =~= seq![x]);
        assert(ns.push(x)[0] == x);
    } else {
        assert(ns.push(x).first() == ns.first());
        assert(ns.push(x).drop_first() =~= ns.drop_first().push(x));
        lemma_enc_nums_push(ns.drop_first(), x);
        if ns.len() == 1 {
            assert(ns.push(x).len() == 2);
            assert(enc_nums(ns.push(x)) =~= enc_nums(ns) + seq![','] + spec_dec(x));
        } else {
            assert(enc_nums(ns.push(x)) =~= enc_nums(ns) + seq![','] + spec_dec(x));
        }
    }
}

fn encode_nums_into(ns: &Vec<u64>, out: &mut Vec<char>)
    ensures
        final(out)@ == old(out)@ + seq!['['] + enc_nums(ints_of(ns@)) + seq![
            ']',
        ],
{
    let ghost model = ints_of(ns@);
    out.push('[');
    let n = ns.len();
    let mut i: usize = 0;
    proof {
        assert(model.take(0) =~= Seq::<int>::empty());
        assert(enc_nums(model.take(0)) =~= Seq::<char>::empty());
        assert(out@ =~= old(out)@ + seq!['['] + enc_nums(model.take(0)));
    }
    while i < n
        invariant
            i <= n,
            n == ns@.len(),
            model == ints_of(ns@),
            out@ == old(out)@ + seq!['['] + enc_nums(model.take(i as int)),
        decreases n - i,
    {
        if i > 0 {
            out.push(',');
        }
        crate::text::push_dec(ns[i], out);
        proof {
            assert(model.take(i + 1) =~= model.take(i as int).push(model[i as int]));
            lemma_enc_nums_push(model.take(i as int), model[i as int]);
            assert(model[i as int] == ns@[i as int] as int);
            assert(out@ =~= old(out)@ + seq!['['] + enc_nums(model.take(i + 1)));
        }
        i = i + 1;
    }
    out.push(']');
    proof {
        assert(model.take(n as int) =~= model);
        assert(final(out)@ =~= old(out)@ + seq!['['] + enc_nums(model) + seq![']']);
    }
}

/// Encode a leaderboard snapshot for its cache file.
pub fn encode_snapshot(l1: &Vec<u64>, l2: &Vec<u64>) -> (r: String)
    ensures
        r@ == enc_snapshot(
            ints_of(l1@),
            ints_of(l2@),
        ),
{
    let mut out: Vec<char> = Vec::new();
    out.push('[');
    encode_nums_into(l1, &mut out);
    out.push(',');
    encode_nums_into(l2, &mut out);
    out.push(']');
    proof {
        assert(out@ =~= enc_snapshot(
            ints_of(l1@),
            ints_of(l2@),
        ));
    }
    crate::text::from_chars(&out)
}

/// Encode a practice log for its cache file.
pub fn encode_practice_log(ns: &Vec<u64>) -> (r: String)
    ensures
        r@ == enc_num_array(ints_of(ns@)),
{
    let mut out: Vec<char> = Vec::new();
    encode_nums_into(ns, &mut out);
    proof {
        assert(out@ =~= enc_num_array(ints_of(ns@)));
    }
    crate::text::from_chars(&out)
}

/// The snapshot file to write, if any: a snapshot is persisted exactly
/// when both part lists are complete (one hundred entries each); an
/// incomplete snapshot yields nothing and is refetched on next access.
pub fn snapshot_file_content(l1: &Vec<u64>, l2: &Vec<u64>) -> (r: Option<String>)
    ensures
        r is Some <==> (l1@.len() == 100 && l2@.len() == 100),
        r matches Some(text) ==> text@ == enc_snapshot(
            ints_of(l1@),
            ints_of(l2@),
        ),
{
    if crate::rank::snapshot_complete(l1.len(), l2.len()) {
        Some(encode_snapshot(l1, l2))
    } else {
        None
    }
}

} // verus!
