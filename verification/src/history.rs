//! Reading spending-history events (NIP-60 kind 7376) and keeping the
//! history list: newest first, each event once.
use vstd::prelude::*;
use vstd::string::*;
use crate::enriched_history::{Direction, HistoryItemData};
use crate::keyset::{contains_string, string_views};
use crate::sorting::{lemma_insert_pos_by, sort_desc_by};
use crate::text::{append_decimal, chars_of, decimal};

verus! {

/// The value of a non-empty run of ASCII digits.
pub open spec fn digits_value(s: Seq<char>) -> int
    decreases s.len(),
{
    if s.len() == 0 { 0 } else { digits_value(s.drop_last()) * 10 + (s.last() as int - '0' as int) }
}

/// Every char is an ASCII digit.
pub open spec fn all_digits(s: Seq<char>) -> bool {
    forall|i: int| 0 <= i < s.len() ==> '0' <= #[trigger] s[i] <= '9'
}

/// What `str::parse::<u64>` gives: an optional `+` followed by one or more
/// ASCII digits whose value fits in 64 bits.
pub open spec fn parsed_u64(s: Seq<char>) -> Option<u64> {
    let d = if s.len() > 0 && s[0] == '+' { s.drop_first() } else { s };
    if d.len() > 0 && all_digits(d) && digits_value(d) <= u64::MAX { Some(digits_value(d) as u64) } else { None }
}

/// Values of digit runs never decrease as digits are added.
proof fn lemma_digits_value_prefix(s: Seq<char>, i: int)
    requires
        0 <= i <= s.len(),
        all_digits(s),
    ensures
        0 <= digits_value(s.take(i)) <= digits_value(s),
    decreases s.len() - i,
{
    if i < s.len() {
        lemma_digits_value_prefix(s, i + 1);
        assert(s.take(i + 1).drop_last() =~= s.take(i));
        assert('0' <= s[i] <= '9');
    } else {
        assert(s.take(i) =~= s);
    }
    lemma_digits_value_nonneg(s.take(i));
}

/// Digit runs have non-negative values.
proof fn lemma_digits_value_nonneg(s: Seq<char>)
    requires
        all_digits(s),
    ensures
        digits_value(s) >= 0,
    decreases s.len(),
{
    if s.len() > 0 {
        assert(all_digits(s.drop_last()) && '0' <= s[s.len() - 1] <= '9');
        lemma_digits_value_nonneg(s.drop_last());
    }
}

/// Parses a decimal `u64` as `str::parse` does.
pub fn parse_u64(s: &str) -> (r: Option<u64>)
    ensures
        r == parsed_u64(s@),
{
    let cs = chars_of(s);
    let start: usize = if cs.len() > 0 && cs[0] == '+' { 1 } else { 0 };
    let ghost d = if s@.len() > 0 && s@[0] == '+' { s@.drop_first() } else { s@ };
    assert(d =~= s@.skip(start as int));
    if start >= cs.len() {
        return None;
    }
    let mut v: u64 = 0;
    let mut i: usize = start;
    while i < cs.len()
        invariant
            start <= i <= cs.len(),
            cs@ == s@,
            start < cs.len(),
            d == s@.skip(start as int),
            d == (if s@.len() > 0 && s@[0] == '+' { s@.drop_first() } else { s@ }),
            all_digits(d.take(i - start)),
            v == digits_value(d.take(i - start)),
        decreases cs.len() - i,
    {
        let c = cs[i];
        assert(d[i - start] == c);
        assert(d.take(i - start + 1).drop_last() =~= d.take(i - start));
        assert(d.take(i - start + 1).last() == c);
        if c < '0' || c > '9' {
            proof {
                assert(!all_digits(d)) by {
                    assert(d[i - start] == c);
                }
            }
            return None;
        }
        let digit = (c as u64) - ('0' as u64);
        let next = match v.checked_mul(10) {
            Some(m) => m.checked_add(digit),
            None => None,
        };
        match next {
            Some(n) => {
                v = n;
                assert(all_digits(d.take(i - start + 1))) by {
                    assert forall|k: int| 0 <= k < d.take(i - start + 1).len() implies '0' <= #[trigger] d.take(i - start + 1)[k] <= '9' by {
                        if k < i - start {
                            assert(d.take(i - start + 1)[k] == d.take(i - start)[k]);
                        }
                    }
                }
            },
            None => {
                proof {
                    if all_digits(d) {
                        lemma_digits_value_prefix(d, i - start + 1);
                    }
                }
                return None;
            },
        }
        i = i + 1;
    }
    assert(d.take(i - start) =~= d);
    Some(v)
}

/// The view of rows of strings.
pub open spec fn rows_view(v: Seq<Vec<String>>) -> Seq<Seq<Seq<char>>> {
    v.map_values(|r: Vec<String>| string_views(r@))
}

/// The fields of a history event's content, read pair by pair: direction
/// (`in`, or out for anything else), amount (kept when it parses), and the
/// created and destroyed token events of `e` references.
pub open spec fn history_fields(pairs: Seq<Seq<Seq<char>>>) -> (Direction, Option<u64>, Seq<Seq<char>>, Seq<Seq<char>>)
    decreases pairs.len(),
{
    if pairs.len() == 0 {
        (Direction::In, None, Seq::empty(), Seq::empty())
    } else {
        let (dir, amount, created, destroyed) = history_fields(pairs.drop_last());
        let p = pairs.last();
        if p.len() == 0 {
            (dir, amount, created, destroyed)
        } else if p[0] == "direction"@ && p.len() > 1 {
            (if p[1] == "in"@ { Direction::In } else { Direction::Out }, amount, created, destroyed)
        } else if p[0] == "amount"@ && p.len() > 1 {
            (dir, if parsed_u64(p[1]) is Some { parsed_u64(p[1]) } else { amount }, created, destroyed)
        } else if p[0] == "e"@ && p.len() > 3 && p[3] == "created"@ {
            (dir, amount, created.push(p[1]), destroyed)
        } else if p[0] == "e"@ && p.len() > 3 && p[3] == "destroyed"@ {
            (dir, amount, created, destroyed.push(p[1]))
        } else {
            (dir, amount, created, destroyed)
        }
    }
}

/// The events marked redeemed by the event's `e` tags.
pub open spec fn redeemed_of(tags: Seq<Seq<Seq<char>>>) -> Seq<Seq<char>>
    decreases tags.len(),
{
    if tags.len() == 0 {
        Seq::empty()
    } else {
        let rest = redeemed_of(tags.drop_last());
        let t = tags.last();
        if t.len() > 3 && t[0] == "e"@ && t[3] == "redeemed"@ { rest.push(t[1]) } else { rest }
    }
}

/// Whether a string equals a literal.
fn is_text(s: &String, lit: &str) -> (r: bool)
    ensures
        r == (s@ == lit@),
{
    let t = String::from_str(lit);
    *s == t
}

/// A copy of a list of strings.
fn clone_strings(v: &Vec<String>) -> (r: Vec<String>)
    ensures
        r@ == v@,
{
    let mut r: Vec<String> = Vec::new();
    for i in 0..v.len()
        invariant
            r@ == v@.take(i as int),
    {
        r.push(v[i].clone());
        assert(r@ =~= v@.take(i + 1));
    }
    assert(v@.take(v.len() as int) =~= v@);
    r
}

/// Reads the content of a history event, given as its decrypted pairs
/// (`[["direction", "in"], ["amount", "100"], ["e", id, "", "created"], ...]`)
/// and the event's tags. The event counts only if its amount parses.
pub fn history_item_from_event(event_id: &String, created_at: u64, pairs: &Vec<Vec<String>>, tags: &Vec<Vec<String>>) -> (r: Option<HistoryItemData>)
    ensures
        ({
            let (dir, amount, created, destroyed) = history_fields(rows_view(pairs@));
            match amount {
                None => r is None,
                Some(a) => r matches Some(h) && h.event_id == *event_id && h.direction == dir && h.amount == a
                    && h.unit@ == "sat"@ && h.created_at == created_at && string_views(h.created_tokens@) == created
                    && string_views(h.destroyed_tokens@) == destroyed
                    && string_views(h.redeemed_events@) == redeemed_of(rows_view(tags@)),
            }
        }),
{
    let mut dir = Direction::In;
    let mut amount: Option<u64> = None;
    let mut created: Vec<String> = Vec::new();
    let mut destroyed: Vec<String> = Vec::new();
    for i in 0..pairs.len()
        invariant
            history_fields(rows_view(pairs@.take(i as int))) == (dir, amount, string_views(created@), string_views(destroyed@)),
    {
        assert(rows_view(pairs@.take(i + 1)).drop_last() =~= rows_view(pairs@.take(i as int)));
        let p = &pairs[i];
        assert(rows_view(pairs@.take(i + 1)).last() == string_views(p@));
        if p.len() == 0 {
        } else if is_text(&p[0], "direction") && p.len() > 1 {
            dir = if is_text(&p[1], "in") { Direction::In } else { Direction::Out };
        } else if is_text(&p[0], "amount") && p.len() > 1 {
            match parse_u64(p[1].as_str()) {
                Some(a) => {
                    amount = Some(a);
                },
                None => {},
            }
        } else if is_text(&p[0], "e") && p.len() > 3 && is_text(&p[3], "created") {
            let ghost before = created@;
            created.push(p[1].clone());
            assert(string_views(created@) =~= string_views(before).push(p@[1]@));
        } else if is_text(&p[0], "e") && p.len() > 3 && is_text(&p[3], "destroyed") {
            let ghost before = destroyed@;
            destroyed.push(p[1].clone());
            assert(string_views(destroyed@) =~= string_views(before).push(p@[1]@));
        }
    }
    assert(pairs@.take(pairs.len() as int) =~= pairs@);
    let mut redeemed: Vec<String> = Vec::new();
    for i in 0..tags.len()
        invariant
            redeemed_of(rows_view(tags@.take(i as int))) == string_views(redeemed@),
    {
        assert(rows_view(tags@.take(i + 1)).drop_last() =~= rows_view(tags@.take(i as int)));
        let t = &tags[i];
        assert(rows_view(tags@.take(i + 1)).last() == string_views(t@));
        if t.len() > 3 && is_text(&t[0], "e") && is_text(&t[3], "redeemed") {
            let ghost before = redeemed@;
            redeemed.push(t[1].clone());
            assert(string_views(redeemed@) =~= string_views(before).push(t@[1]@));
        }
    }
    assert(tags@.take(tags.len() as int) =~= tags@);
    match amount {
        Some(a) => Some(
            HistoryItemData {
                event_id: event_id.clone(),
                direction: dir,
                amount: a,
                unit: String::from_str("sat"),
                created_at,
                created_tokens: created,
                destroyed_tokens: destroyed,
                redeemed_events: redeemed,
            },
        ),
        None => None,
    }
}

/// Sort key of history items: their creation time.
pub open spec fn created_key() -> spec_fn(HistoryItemData) -> int {
    |h: HistoryItemData| h.created_at as int
}

/// Event ids of history items.
pub open spec fn item_ids(items: Seq<HistoryItemData>) -> Seq<Seq<char>> {
    items.map_values(|h: HistoryItemData| h.event_id@)
}

/// The fetched items whose event is not already known, in order.
pub open spec fn new_items(fetched: Seq<HistoryItemData>, known: Seq<Seq<char>>) -> Seq<HistoryItemData>
    decreases fetched.len(),
{
    if fetched.len() == 0 {
        Seq::empty()
    } else {
        let rest = new_items(fetched.drop_last(), known);
        if known.contains(fetched.last().event_id@) { rest } else { rest.push(fetched.last()) }
    }
}

/// Sorts history items newest first, keeping the order of equal times.
fn sort_newest_first(v: Vec<HistoryItemData>) -> (r: Vec<HistoryItemData>)
    ensures
        r@ == sort_desc_by(v@, created_key()),
{
    let ghost orig = v@;
    let n: usize = v.len();
    assert(orig.len() == n);
    let mut rest = v;
    let mut r: Vec<HistoryItemData> = Vec::new();
    let mut i: usize = 0;
    while rest.len() > 0
        invariant
            i <= orig.len(),
            orig.len() <= usize::MAX,
            rest@ == orig.skip(i as int),
            r@ == sort_desc_by(orig.take(i as int), created_key()),
        decreases rest.len(),
    {
        let x = rest.remove(0);
        assert(x == orig[i as int]);
        assert(rest@ =~= orig.skip(i + 1));
        let mut j: usize = 0;
        let mut found = false;
        while j < r.len() && !found
            invariant
                j <= r.len(),
                forall|k: int| 0 <= k < j ==> r@[k].created_at >= x.created_at,
                found ==> j < r.len() && r@[j as int].created_at < x.created_at,
            decreases r.len() - j + (if found { 0int } else { 1int }),
        {
            if r[j].created_at < x.created_at {
                found = true;
            } else {
                j = j + 1;
            }
        }
        proof {
            lemma_insert_pos_by(r@, x, created_key(), j as int);
            assert(orig.take(i + 1).drop_last() =~= orig.take(i as int));
        }
        r.insert(j, x);
        i = i + 1;
    }
    assert(orig.take(orig.len() as int) =~= orig);
    r
}

/// The history after a fetch: with an incremental fetch, the known items
/// and the fetched items not yet known; with a full fetch, the fetched
/// items; in both cases newest first.
pub fn merge_history(existing: Vec<HistoryItemData>, fetched: Vec<HistoryItemData>, incremental: bool) -> (r: Vec<HistoryItemData>)
    ensures
        r@ == sort_desc_by(
            if incremental { existing@ + new_items(fetched@, item_ids(existing@)) } else { fetched@ },
            created_key(),
        ),
{
    if !incremental {
        return sort_newest_first(fetched);
    }
    let mut ids: Vec<String> = Vec::new();
    for i in 0..existing.len()
        invariant
            string_views(ids@) == item_ids(existing@.take(i as int)),
    {
        let ghost before = ids@;
        ids.push(existing[i].event_id.clone());
        assert(string_views(ids@) =~= string_views(before).push(existing@[i as int].event_id@));
        assert(item_ids(existing@.take(i + 1)) =~= item_ids(existing@.take(i as int)).push(existing@[i as int].event_id@));
    }
    assert(existing@.take(existing.len() as int) =~= existing@);
    let ghost known = item_ids(existing@);
    let ghost orig = fetched@;
    let n: usize = fetched.len();
    assert(orig.len() == n);
    let mut merged = existing;
    let ghost base = merged@;
    let mut rest = fetched;
    let mut i: usize = 0;
    while rest.len() > 0
        invariant
            i <= orig.len(),
            orig.len() <= usize::MAX,
            rest@ == orig.skip(i as int),
            string_views(ids@) == known,
            merged@ == base + new_items(orig.take(i as int), known),
        decreases rest.len(),
    {
        let x = rest.remove(0);
        assert(x == orig[i as int]);
        assert(rest@ =~= orig.skip(i + 1));
        assert(orig.take(i + 1).drop_last() =~= orig.take(i as int));
        if !contains_string(&ids, &x.event_id) {
            merged.push(x);
        }
        i = i + 1;
    }
    assert(orig.take(orig.len() as int) =~= orig);
    sort_newest_first(merged)
}

/// A hexadecimal digit, in either case.
pub open spec fn is_hex_digit(c: char) -> bool {
    ('0' <= c && c <= '9') || ('a' <= c && c <= 'f') || ('A' <= c && c <= 'F')
}

/// A Nostr event id in hex: 64 hexadecimal digits (32 bytes).
pub open spec fn is_event_id_hex(s: Seq<char>) -> bool {
    s.len() == 64 && forall|i: int| 0 <= i < 64 ==> #[trigger] is_hex_digit(s[i])
}

/// A hexadecimal digit in lower case.
pub open spec fn lower_hex_char(c: char) -> char {
    if c == 'A' {
        'a'
    } else if c == 'B' {
        'b'
    } else if c == 'C' {
        'c'
    } else if c == 'D' {
        'd'
    } else if c == 'E' {
        'e'
    } else if c == 'F' {
        'f'
    } else {
        c
    }
}

/// Hexadecimal text in lower case, as an event id is written.
pub open spec fn lower_hex(s: Seq<char>) -> Seq<char> {
    s.map_values(|c: char| lower_hex_char(c))
}

/// The event ids among `ids` (those that are 64 hexadecimal digits), as
/// written (lower case), in order; the others are skipped.
pub open spec fn event_refs(ids: Seq<Seq<char>>) -> Seq<Seq<char>>
    decreases ids.len(),
{
    if ids.len() == 0 {
        Seq::empty()
    } else {
        let rest = event_refs(ids.drop_last());
        if is_event_id_hex(ids.last()) { rest.push(lower_hex(ids.last())) } else { rest }
    }
}

/// A hexadecimal digit in lower case.
fn lower_hex_digit(c: char) -> (r: char)
    ensures
        r == lower_hex_char(c),
{
    match c {
        'A' => 'a',
        'B' => 'b',
        'C' => 'c',
        'D' => 'd',
        'E' => 'e',
        'F' => 'f',
        _ => c,
    }
}

/// Appends a hexadecimal digit in lower case.
fn push_lower_hex(out: &mut String, c: char)
    requires
        is_hex_digit(c),
    ensures
        final(out)@ == old(out)@.push(lower_hex_char(c)),
{
    proof {
        reveal_strlit("0");
        reveal_strlit("1");
        reveal_strlit("2");
        reveal_strlit("3");
        reveal_strlit("4");
        reveal_strlit("5");
        reveal_strlit("6");
        reveal_strlit("7");
        reveal_strlit("8");
        reveal_strlit("9");
        reveal_strlit("a");
        reveal_strlit("b");
        reveal_strlit("c");
        reveal_strlit("d");
        reveal_strlit("e");
        reveal_strlit("f");
    }
    let ghost before = out@;
    let l = lower_hex_digit(c);
    match l {
        '0' => out.append("0"),
        '1' => out.append("1"),
        '2' => out.append("2"),
        '3' => out.append("3"),
        '4' => out.append("4"),
        '5' => out.append("5"),
        '6' => out.append("6"),
        '7' => out.append("7"),
        '8' => out.append("8"),
        '9' => out.append("9"),
        'a' => out.append("a"),
        'b' => out.append("b"),
        'c' => out.append("c"),
        'd' => out.append("d"),
        'e' => out.append("e"),
        _ => out.append("f"),
    }
    assert(out@ =~= before.push(lower_hex_char(c)));
}

/// The event id a text names, written in lower case; none when it is not
/// 64 hexadecimal digits.
fn event_id_ref(s: &String) -> (r: Option<String>)
    ensures
        is_event_id_hex(s@) ==> (r matches Some(x) && x@ == lower_hex(s@)),
        !is_event_id_hex(s@) ==> r is None,
{
    let cs = chars_of(s.as_str());
    if cs.len() != 64 {
        return None;
    }
    let mut out = String::new();
    for i in 0..cs.len()
        invariant
            cs@ == s@,
            cs@.len() == 64,
            forall|k: int| 0 <= k < i ==> #[trigger] is_hex_digit(cs@[k]),
            out@ == lower_hex(cs@.take(i as int)),
    {
        let c = cs[i];
        let ok = ('0' <= c && c <= '9') || ('a' <= c && c <= 'f') || ('A' <= c && c <= 'F');
        if !ok {
            assert(!is_hex_digit(s@[i as int]));
            return None;
        }
        let ghost before = out@;
        push_lower_hex(&mut out, c);
        assert(lower_hex(cs@.take(i + 1)) =~= lower_hex(cs@.take(i as int)).push(lower_hex_char(c)));
    }
    assert(cs@.take(64) =~= cs@);
    Some(out)
}

/// The event ids among `ids`, written in lower case, in order.
fn event_refs_of(ids: &Vec<String>) -> (r: Vec<String>)
    ensures
        string_views(r@) == event_refs(string_views(ids@)),
{
    let mut r: Vec<String> = Vec::new();
    for i in 0..ids.len()
        invariant
            string_views(r@) == event_refs(string_views(ids@.take(i as int))),
    {
        assert(string_views(ids@.take(i + 1)).drop_last() =~= string_views(ids@.take(i as int)));
        assert(string_views(ids@.take(i + 1)).last() == ids@[i as int]@);
        match event_id_ref(&ids[i]) {
            Some(x) => {
                let ghost before = string_views(r@);
                r.push(x);
                assert(string_views(r@) =~= before.push(lower_hex(ids@[i as int]@)));
            },
            None => {},
        }
    }
    assert(ids@.take(ids.len() as int) =~= ids@);
    r
}

/// Rows referring to events, each marked with what became of it.
pub open spec fn ref_rows(ids: Seq<Seq<char>>, marker: Seq<char>) -> Seq<Seq<Seq<char>>> {
    ids.map_values(|id: Seq<char>| seq!["e"@, id, Seq::<char>::empty(), marker])
}

/// The content of a history event: direction, amount and unit, then the
/// token events created, then those destroyed.
pub open spec fn history_content_rows(direction: Seq<char>, amount: u64, created: Seq<Seq<char>>, destroyed: Seq<Seq<char>>) -> Seq<Seq<Seq<char>>> {
    seq![seq!["direction"@, direction], seq!["amount"@, decimal(amount as nat)], seq!["unit"@, "sat"@]] + ref_rows(
        event_refs(created),
        "created"@,
    ) + ref_rows(event_refs(destroyed), "destroyed"@)
}

/// A `[name, value]` row.
fn pair_row(name: &str, value: String) -> (r: Vec<String>)
    ensures
        string_views(r@) == seq![name@, value@],
{
    let mut r: Vec<String> = Vec::new();
    r.push(String::from_str(name));
    r.push(value);
    assert(string_views(r@) =~= seq![name@, value@]);
    r
}

/// Appends the rows referring to events, each marked.
fn push_ref_rows(rows: &mut Vec<Vec<String>>, ids: Vec<String>, marker: &str)
    ensures
        rows_view(final(rows)@) == rows_view(old(rows)@) + ref_rows(string_views(ids@), marker@),
{
    let ghost start = rows_view(rows@);
    for i in 0..ids.len()
        invariant
            rows_view(rows@) == start + ref_rows(string_views(ids@.take(i as int)), marker@),
    {
        let mut row: Vec<String> = Vec::new();
        row.push(String::from_str("e"));
        row.push(ids[i].clone());
        row.push(String::new());
        row.push(String::from_str(marker));
        assert(string_views(row@) =~= seq!["e"@, ids@[i as int]@, Seq::<char>::empty(), marker@]);
        let ghost before = rows_view(rows@);
        rows.push(row);
        assert(rows_view(rows@) =~= before.push(string_views(row@)));
        assert(ref_rows(string_views(ids@.take(i + 1)), marker@) =~= ref_rows(string_views(ids@.take(i as int)), marker@).push(
            seq!["e"@, ids@[i as int]@, Seq::<char>::empty(), marker@],
        ));
    }
    assert(ids@.take(ids.len() as int) =~= ids@);
}

/// Writes a history event: its content (direction `in` or `out`, amount,
/// unit, and the token events created and destroyed) and its tags (the
/// events redeemed). Texts that are not event ids are skipped; ids are
/// written in lower case.
pub fn history_event_content(
    direction: &str,
    amount: u64,
    created: &Vec<String>,
    destroyed: &Vec<String>,
    redeemed: &Vec<String>,
) -> (r: Result<(Vec<Vec<String>>, Vec<Vec<String>>), String>)
    ensures
        !(direction@ == "in"@ || direction@ == "out"@) ==> (r matches Err(e) && e@ == "Invalid direction"@),
        direction@ == "in"@ || direction@ == "out"@ ==> (r matches Ok(ct) && rows_view(ct.0@)
            == history_content_rows(direction@, amount, string_views(created@), string_views(destroyed@))
            && rows_view(ct.1@) == ref_rows(event_refs(string_views(redeemed@)), "redeemed"@)),
{
    let d = String::from_str(direction);
    let in_text = String::from_str("in");
    let out_text = String::from_str("out");
    if !(d == in_text || d == out_text) {
        return Err(String::from_str("Invalid direction"));
    }
    let mut rows: Vec<Vec<String>> = Vec::new();
    rows.push(pair_row("direction", d));
    let mut amount_text = String::new();
    append_decimal(&mut amount_text, amount);
    proof {
        assert(Seq::<char>::empty() + decimal(amount as nat) =~= decimal(amount as nat));
    }
    rows.push(pair_row("amount", amount_text));
    rows.push(pair_row("unit", String::from_str("sat")));
    assert(rows_view(rows@) =~= seq![seq!["direction"@, direction@], seq!["amount"@, decimal(amount as nat)], seq![
        "unit"@,
        "sat"@,
    ]]);
    push_ref_rows(&mut rows, event_refs_of(created), "created");
    push_ref_rows(&mut rows, event_refs_of(destroyed), "destroyed");
    let mut tags: Vec<Vec<String>> = Vec::new();
    push_ref_rows(&mut tags, event_refs_of(redeemed), "redeemed");
    assert(rows_view(tags@) =~= ref_rows(event_refs(string_views(redeemed@)), "redeemed"@));
    Ok((rows, tags))
}

/// Rows of an optional `[name, value]` pair: one when there is a value.
pub open spec fn optional_row(name: Seq<char>, value: Option<Seq<char>>) -> Seq<Seq<Seq<char>>> {
    match value {
        Some(v) => seq![seq![name, v]],
        None => Seq::empty(),
    }
}

/// The content of a history event that also names its operation type and
/// invoice (fields other readers skip): direction, amount, unit, type,
/// invoice, then the token events created and destroyed, as given.
pub open spec fn typed_history_rows(
    direction: Seq<char>,
    amount: u64,
    created: Seq<Seq<char>>,
    destroyed: Seq<Seq<char>>,
    operation_type: Option<Seq<char>>,
    invoice: Option<Seq<char>>,
) -> Seq<Seq<Seq<char>>> {
    seq![seq!["direction"@, direction], seq!["amount"@, decimal(amount as nat)], seq!["unit"@, "sat"@]]
        + optional_row("type"@, operation_type) + optional_row("invoice"@, invoice) + ref_rows(created, "created"@)
        + ref_rows(destroyed, "destroyed"@)
}

/// An optional string as text.
pub open spec fn opt_str(o: Option<&str>) -> Option<Seq<char>> {
    match o {
        Some(s) => Some(s@),
        None => None,
    }
}

/// Writes the content of a history event with its operation type and
/// invoice.
pub fn typed_history_content(
    direction: &str,
    amount: u64,
    created: Vec<String>,
    destroyed: Vec<String>,
    operation_type: Option<&str>,
    invoice: Option<&str>,
) -> (r: Vec<Vec<String>>)
    ensures
        rows_view(r@) == typed_history_rows(
            direction@,
            amount,
            string_views(created@),
            string_views(destroyed@),
            opt_str(operation_type),
            opt_str(invoice),
        ),
{
    let mut rows: Vec<Vec<String>> = Vec::new();
    rows.push(pair_row("direction", String::from_str(direction)));
    let mut amount_text = String::new();
    append_decimal(&mut amount_text, amount);
    proof {
        assert(Seq::<char>::empty() + decimal(amount as nat) =~= decimal(amount as nat));
    }
    rows.push(pair_row("amount", amount_text));
    rows.push(pair_row("unit", String::from_str("sat")));
    let ghost head = rows_view(rows@);
    assert(head =~= seq![seq!["direction"@, direction@], seq!["amount"@, decimal(amount as nat)], seq!["unit"@, "sat"@]]);
    match operation_type {
        Some(t) => {
            rows.push(pair_row("type", String::from_str(t)));
        },
        None => {},
    }
    assert(rows_view(rows@) =~= head + optional_row("type"@, opt_str(operation_type)));
    let ghost head2 = rows_view(rows@);
    match invoice {
        Some(inv) => {
            rows.push(pair_row("invoice", String::from_str(inv)));
        },
        None => {},
    }
    assert(rows_view(rows@) =~= head2 + optional_row("invoice"@, opt_str(invoice)));
    push_ref_rows(&mut rows, created, "created");
    push_ref_rows(&mut rows, destroyed, "destroyed");
    rows
}

} // verus!
