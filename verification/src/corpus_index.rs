//! The corpus's index: what each page of the corpus shows, the page that lists them, and
//! whether the corpus is worth listing.

use crate::colony::count_true;
use crate::corpus::is_word;
use crate::terrain_import::{tile_index, CombatTerrain, TILES};
use crate::text::{
    a_numeral_stands_for_its_number, a_set_text_fills_its_column, decimal, html_escaped, left_set,
    push_decimal, push_html, push_left, push_right, right_set,
};
use vstd::prelude::*;
use vstd::string::*;

verus! {

/// Real ground has more walls than this.
pub const SPARSE_WALLS: usize = 60;

/// The fewest pages of a corpus.
pub const FEWEST_ROWS: usize = 20;

/// A line of the index.
#[derive(Debug)]
pub struct Row {
    pub file: String,
    pub fixture_room: String,
    pub att: &'static str,
    pub def: &'static str,
    pub objective: &'static str,
    pub outcome: String,
    /// Rooms that the page draws.
    pub rooms: usize,
    /// The page shows the walls of a real room.
    pub terrain_real: bool,
    /// The page shows a fight.
    pub frames: bool,
}

// ── What a page shows ──────────────────────────────────────────────────────

/// The first place from `from` on where `needle` stands.
pub open spec fn first_at(t: Seq<char>, needle: Seq<char>, from: int) -> Option<int>
    decreases t.len() + 1 - from,
{
    if from < 0 || from + needle.len() > t.len() {
        None
    } else if t.subrange(from, from + needle.len()) == needle {
        Some(from)
    } else {
        first_at(t, needle, from + 1)
    }
}

/// The texts that stand as a name from `from` on: what lies between the key and the next
/// quote. The search goes on at that quote.
pub open spec fn names_from(t: Seq<char>, from: int) -> Seq<Seq<char>>
    decreases t.len() - from,
{
    let key = "\"name\":\""@;
    match first_at(t, key, from) {
        Some(p) => match first_at(t, seq!['"'], p + key.len()) {
            Some(end) if from < end < t.len() => seq![t.subrange(p + key.len(), end)] + names_from(
                t,
                end,
            ),
            _ => seq![],
        },
        None => seq![],
    }
}

/// A name that a room can have.
pub open spec fn is_room_name(name: Seq<char>) -> bool {
    &&& 0 < name.len() <= 8
    &&& name[0] == 'W' || name[0] == 'E'
    &&& forall|i: int| 0 <= i < name.len() ==> is_word(#[trigger] name[i])
}

/// `a` comes before `b` in the dictionary.
pub open spec fn comes_before(a: Seq<char>, b: Seq<char>) -> bool
    decreases a.len(),
{
    if b.len() == 0 {
        false
    } else if a.len() == 0 {
        true
    } else if a[0] != b[0] {
        a[0] < b[0]
    } else {
        comes_before(a.skip(1), b.skip(1))
    }
}

pub open spec fn texts(v: Seq<Vec<char>>) -> Seq<Seq<char>> {
    Seq::new(v.len(), |i: int| v[i]@)
}

/// Each text once, in the dictionary's order.
pub open spec fn in_order(s: Seq<Seq<char>>) -> bool {
    forall|i: int, j: int| 0 <= i < j < s.len() ==> comes_before(#[trigger] s[i], #[trigger] s[j])
}

/// The room names among `names`, each once and in order.
pub open spec fn is_roll(names: Seq<Seq<char>>, s: Seq<Seq<char>>) -> bool {
    &&& in_order(s)
    &&& forall|n: Seq<char>| #[trigger]
        s.contains(n) <==> names.contains(n) && is_room_name(n)
}

proof fn lemma_order_is_total(a: Seq<char>, b: Seq<char>)
    ensures
        !comes_before(a, a),
        a == b || comes_before(a, b) || comes_before(b, a),
    decreases a.len(),
{
    if a.len() > 0 {
        lemma_order_is_total(a.skip(1), if b.len() > 0 {
            b.skip(1)
        } else {
            b
        });
        if b.len() > 0 && a[0] == b[0] && a.skip(1) == b.skip(1) {
            assert(a =~= seq![a[0]] + a.skip(1));
            assert(b =~= seq![b[0]] + b.skip(1));
        }
    } else if b.len() == 0 {
        assert(a =~= b);
    }
}

proof fn lemma_order_chains(a: Seq<char>, b: Seq<char>, c: Seq<char>)
    requires
        comes_before(a, b),
        comes_before(b, c),
    ensures
        comes_before(a, c),
    decreases a.len(),
{
    if a.len() > 0 && a[0] == b[0] && b[0] == c[0] {
        lemma_order_chains(a.skip(1), b.skip(1), c.skip(1));
    }
}

/// A roll is settled by its names: there is one way to write it.
pub proof fn roll_is_unique(names: Seq<Seq<char>>, s: Seq<Seq<char>>, t: Seq<Seq<char>>)
    requires
        is_roll(names, s),
        is_roll(names, t),
    ensures
        s == t,
{
    assert forall|n: Seq<char>| s.contains(n) == #[trigger] t.contains(n) by {
        assert(s.contains(n) <==> names.contains(n) && is_room_name(n));
    }
    lemma_same_members(s, t);
}

proof fn lemma_same_members(s: Seq<Seq<char>>, t: Seq<Seq<char>>)
    requires
        in_order(s),
        in_order(t),
        forall|n: Seq<char>| s.contains(n) == #[trigger] t.contains(n),
    ensures
        s == t,
    decreases s.len(),
{
    if s.len() == 0 {
        if t.len() > 0 {
            assert(t.contains(t[0]));
        }
        assert(s =~= t);
    } else {
        assert(s.contains(s.last()));
        assert(t.contains(s.last()));
        assert(t.contains(t.last()));
        assert(s.contains(t.last()));
        let i = choose|i: int| 0 <= i < t.len() && t[i] == s.last();
        let j = choose|j: int| 0 <= j < s.len() && s[j] == t.last();
        lemma_order_is_total(s.last(), t.last());
        if s.last() != t.last() {
            assert(comes_before(t[i], t[t.len() - 1]));
            assert(comes_before(s[j], s[s.len() - 1]));
            lemma_order_chains(s.last(), t.last(), s.last());
        }
        let (s1, t1) = (s.drop_last(), t.drop_last());
        assert forall|n: Seq<char>| s1.contains(n) == #[trigger] t1.contains(n) by {
            lemma_order_is_total(n, n);
            if s1.contains(n) {
                let k = choose|k: int| 0 <= k < s1.len() && s1[k] == n;
                assert(s[k] == n && comes_before(s[k], s[s.len() - 1]));
                assert(s.contains(n) && t.contains(n));
                let m = choose|m: int| 0 <= m < t.len() && t[m] == n;
                assert(t1[m] == n);
            }
            if t1.contains(n) {
                let k = choose|k: int| 0 <= k < t1.len() && t1[k] == n;
                assert(t[k] == n && comes_before(t[k], t[t.len() - 1]));
                assert(t.contains(n));
                assert(s.contains(n));
                let m = choose|m: int| 0 <= m < s.len() && s[m] == n;
                assert(s1[m] == n);
            }
        }
        lemma_same_members(s1, t1);
        assert(s =~= s1.push(s.last()));
        assert(t =~= t1.push(t.last()));
    }
}

/// The characters of a text.
fn letters(s: &str) -> (r: Vec<char>)
    ensures
        r@ == s@,
{
    let n: usize = s.unicode_len();
    let mut out: Vec<char> = Vec::new();
    let mut i: usize = 0;
    while i < n
        invariant
            i <= n == s@.len(),
            out@ == s@.take(i as int),
        decreases n - i,
    {
        out.push(s.get_char(i));
        i = i + 1;
        assert(out@ =~= s@.take(i as int));
    }
    assert(out@ =~= s@);
    out
}

fn stands_at(t: &Vec<char>, needle: &Vec<char>, p: usize) -> (r: bool)
    requires
        p + needle@.len() <= t@.len(),
    ensures
        r == (t@.subrange(p as int, p + needle@.len()) == needle@),
{
    let ghost here = t@.subrange(p as int, p + needle@.len());
    let len: usize = t.len();
    let mut k: usize = 0;
    while k < needle.len()
        invariant
            len == t@.len(),
            p + needle@.len() <= t@.len(),
            here == t@.subrange(p as int, p + needle@.len()),
            k <= needle@.len(),
            forall|j: int| 0 <= j < k ==> here[j] == #[trigger] needle@[j],
        decreases needle.len() - k,
    {
        if t[p + k] != needle[k] {
            assert(here[k as int] != needle@[k as int]);
            return false;
        }
        k = k + 1;
    }
    assert(here =~= needle@);
    true
}

fn find(t: &Vec<char>, needle: &Vec<char>, from: usize) -> (r: Option<usize>)
    requires
        from <= t@.len(),
        needle@.len() > 0,
    ensures
        match r {
            Some(p) => first_at(t@, needle@, from as int) == Some(p as int) && from <= p && p
                + needle@.len() <= t@.len(),
            None => first_at(t@, needle@, from as int) is None,
        },
{
    let mut p: usize = from;
    while needle.len() <= t.len() - p
        invariant
            from <= p <= t@.len(),
            needle@.len() > 0,
            first_at(t@, needle@, from as int) == first_at(t@, needle@, p as int),
        decreases t@.len() - p,
    {
        if stands_at(t, needle, p) {
            return Some(p);
        }
        p = p + 1;
    }
    None
}

fn room_name(name: &Vec<char>) -> (r: bool)
    ensures
        r == is_room_name(name@),
{
    if name.len() == 0 || name.len() > 8 || !(name[0] == 'W' || name[0] == 'E') {
        return false;
    }
    let mut i: usize = 0;
    while i < name.len()
        invariant
            i <= name@.len(),
            forall|k: int| 0 <= k < i ==> is_word(#[trigger] name@[k]),
        decreases name.len() - i,
    {
        let c: char = name[i];
        if !(('a' <= c && c <= 'z') || ('A' <= c && c <= 'Z') || ('0' <= c && c <= '9')) {
            assert(!is_word(name@[i as int]));
            return false;
        }
        i = i + 1;
    }
    true
}

fn is_before(a: &Vec<char>, b: &Vec<char>) -> (r: bool)
    ensures
        r == comes_before(a@, b@),
{
    let mut k: usize = 0;
    assert(a@.skip(0) =~= a@);
    assert(b@.skip(0) =~= b@);
    while k < a.len() && k < b.len()
        invariant
            k <= a@.len(),
            k <= b@.len(),
            comes_before(a@, b@) == comes_before(a@.skip(k as int), b@.skip(k as int)),
        decreases a.len() - k,
    {
        if a[k] != b[k] {
            return a[k] < b[k];
        }
        assert(a@.skip(k as int).skip(1) =~= a@.skip(k + 1));
        assert(b@.skip(k as int).skip(1) =~= b@.skip(k + 1));
        k = k + 1;
    }
    k < b.len()
}

/// Enters a name in the roll, unless it is there.
fn enter(roll: &mut Vec<Vec<char>>, name: Vec<char>)
    requires
        in_order(texts(old(roll)@)),
    ensures
        in_order(texts(final(roll)@)),
        forall|n: Seq<char>| #[trigger]
            texts(final(roll)@).contains(n) <==> texts(old(roll)@).contains(n) || n == name@,
{
    let ghost before = texts(roll@);
    let mut k: usize = 0;
    while k < roll.len() && is_before(&roll[k], &name)
        invariant
            k <= roll@.len(),
            before == texts(roll@),
            forall|i: int| 0 <= i < k ==> comes_before(#[trigger] before[i], name@),
        decreases roll.len() - k,
    {
        k = k + 1;
    }
    if k < roll.len() && !is_before(&name, &roll[k]) {
        proof {
            lemma_order_is_total(name@, before[k as int]);
            assert(before.contains(before[k as int]));
        }
        return;
    }
    let ghost x = name@;
    roll.insert(k, name);
    proof {
        let after = texts(roll@);
        assert(after =~= before.insert(k as int, x));
        assert forall|i: int, j: int| 0 <= i < j < after.len() implies comes_before(
            #[trigger] after[i],
            #[trigger] after[j],
        ) by {
            if i == k {
                assert(after[j] == before[j - 1]);
                if j - 1 > k {
                    lemma_order_chains(x, before[k as int], before[j - 1]);
                }
            } else if j == k {
                assert(after[i] == before[i]);
            } else {
                let (a, b) = (
                    if i < k {
                        i
                    } else {
                        i - 1
                    },
                    if j < k {
                        j
                    } else {
                        j - 1
                    },
                );
                assert(after[i] == before[a] && after[j] == before[b]);
            }
        }
        assert forall|n: Seq<char>| #[trigger]
            after.contains(n) <==> before.contains(n) || n == x by {
            if after.contains(n) {
                let i = choose|i: int| 0 <= i < after.len() && after[i] == n;
                if i < k {
                    assert(before[i] == n);
                } else if i > k {
                    assert(before[i - 1] == n);
                }
            }
            if before.contains(n) {
                let i = choose|i: int| 0 <= i < before.len() && before[i] == n;
                assert(after[if i < k {
                    i
                } else {
                    i + 1
                }] == n);
            }
            assert(after[k as int] == x);
        }
    }
}

fn part_of(t: &Vec<char>, from: usize, to: usize) -> (r: Vec<char>)
    requires
        from <= to <= t@.len(),
    ensures
        r@ == t@.subrange(from as int, to as int),
{
    let mut out: Vec<char> = Vec::new();
    let mut i: usize = from;
    while i < to
        invariant
            from <= i <= to <= t@.len(),
            out@ == t@.subrange(from as int, i as int),
        decreases to - i,
    {
        out.push(t[i]);
        i = i + 1;
        assert(out@ =~= t@.subrange(from as int, i as int));
    }
    out
}

/// The rooms that a page draws, each once and in order.
pub fn rooms_in_html(page: &Vec<char>) -> (r: Vec<Vec<char>>)
    ensures
        is_roll(names_from(page@, 0), texts(r@)),
{
    let key: Vec<char> = letters("\"name\":\"");
    let mut quote: Vec<char> = Vec::new();
    quote.push('"');
    proof {
        reveal_strlit("\"name\":\"");
        assert(quote@ =~= seq!['"']);
    }
    let ghost names = names_from(page@, 0);
    let ghost mut seen: Seq<Seq<char>> = seq![];
    let mut roll: Vec<Vec<char>> = Vec::new();
    let mut from: usize = 0;
    assert(page@.len() == page.len());
    assert(names =~= seen + names_from(page@, 0));
    assert(is_roll(seen, texts(roll@)));
    loop
        invariant
            key@ == "\"name\":\""@,
            key@.len() == 8,
            quote@ == seq!['"'],
            from <= page@.len() <= usize::MAX,
            names == names_from(page@, 0),
            names == seen + names_from(page@, from as int),
            is_roll(seen, texts(roll@)),
        decreases page@.len() - from,
    {
        let p: usize = match find(page, &key, from) {
            Some(p) => p,
            None => {
                assert(names =~= seen);
                return roll;
            },
        };
        let start: usize = p + key.len();
        let end: usize = match find(page, &quote, start) {
            Some(end) => end,
            None => {
                assert(names =~= seen);
                return roll;
            },
        };
        let name: Vec<char> = part_of(page, start, end);
        let ghost n = name@;
        let ghost before = texts(roll@);
        let ghost had = seen;
        proof {
            seen = seen.push(n);
            assert(names =~= seen + names_from(page@, end as int));
            assert forall|m: Seq<char>| #[trigger] seen.contains(m) <==> had.contains(m) || m
                == n by {
                if had.contains(m) {
                    let i = choose|i: int| 0 <= i < had.len() && had[i] == m;
                    assert(seen[i] == m);
                }
                assert(seen[had.len() as int] == n);
            }
        }
        if room_name(&name) {
            enter(&mut roll, name);
        }
        assert(is_roll(seen, texts(roll@))) by {
            assert forall|m: Seq<char>| #[trigger]
                texts(roll@).contains(m) <==> seen.contains(m) && is_room_name(m) by {
                assert(before.contains(m) <==> had.contains(m) && is_room_name(m));
                assert(seen.contains(m) <==> had.contains(m) || m == n);
            }
        }
        from = end;
    }
}

/// Whether a page shows a fight.
pub fn shows_frames(page: &Vec<char>) -> (r: bool)
    ensures
        r == (first_at(page@, "\"frames\":[{"@, 0) is Some),
{
    let key: Vec<char> = letters("\"frames\":[{");
    proof {
        reveal_strlit("\"frames\":[{");
    }
    find(page, &key, 0).is_some()
}

/// How many tiles of the ground are walls.
pub fn count_walls(t: &CombatTerrain) -> (r: usize)
    requires
        t@.wf(),
    ensures
        r == count_true(t@.walls),
{
    let mut n: usize = 0;
    let mut i: usize = 0;
    while i < TILES
        invariant
            i <= TILES,
            t@.wf(),
            n <= i,
            n == count_true(t@.walls.take(i as int)),
        decreases TILES - i,
    {
        assert(t@.walls.take(i + 1).drop_last() =~= t@.walls.take(i as int));
        let (x, y): (u8, u8) = ((i % 50) as u8, (i / 50) as u8);
        assert(tile_index(x as int, y as int) == i);
        if t.is_wall(x, y) {
            n = n + 1;
        }
        i = i + 1;
    }
    assert(t@.walls.take(i as int) =~= t@.walls);
    n
}

/// A page shows real ground: it shows a fight, on more than a few walls.
pub fn is_terrain_real(walls: usize, frames: bool) -> (r: bool)
    ensures
        r == (walls > SPARSE_WALLS && frames),
        r ==> frames && walls >= 61,
        frames && walls >= 61 ==> r,
{
    walls > SPARSE_WALLS && frames
}

// ── The lines ──────────────────────────────────────────────────────────────

pub open spec fn real_rows(s: Seq<Row>) -> nat
    decreases s.len(),
{
    if s.len() == 0 {
        0
    } else {
        real_rows(s.drop_last()) + if s.last().terrain_real {
            1nat
        } else {
            0nat
        }
    }
}

pub open spec fn fought_rows(s: Seq<Row>) -> nat
    decreases s.len(),
{
    if s.len() == 0 {
        0
    } else {
        fought_rows(s.drop_last()) + if s.last().frames {
            1nat
        } else {
            0nat
        }
    }
}

/// How many lines show real ground, and how many a fight.
pub fn tally(rows: &Vec<Row>) -> (r: (usize, usize))
    ensures
        r.0 == real_rows(rows@),
        r.1 == fought_rows(rows@),
        r.0 <= rows@.len(),
{
    let mut real_count: usize = 0;
    let mut fought: usize = 0;
    let mut i: usize = 0;
    assert(rows@.take(0) =~= seq![]);
    while i < rows.len()
        invariant
            i <= rows@.len(),
            real_count <= i,
            fought <= i,
            real_count == real_rows(rows@.take(i as int)),
            fought == fought_rows(rows@.take(i as int)),
        decreases rows.len() - i,
    {
        assert(rows@.take(i + 1).drop_last() =~= rows@.take(i as int));
        if rows[i].terrain_real {
            real_count = real_count + 1;
        }
        if rows[i].frames {
            fought = fought + 1;
        }
        i = i + 1;
    }
    assert(rows@.take(i as int) =~= rows@);
    (real_count, fought)
}

/// The start of the `k`th line: its page, and the ground.
pub open spec fn line_page(k: int, r: Row) -> Seq<char> {
    "<tr><td class=\"muted\">"@ + decimal(k as nat) + "</td><td><a href=\""@ + r.file@ + "\">"@
        + html_escaped(r.file@) + "</a></td><td class=\"fx\">"@ + html_escaped(r.fixture_room@)
        + "</td><td>"@
}

/// The middle of a line: who fought for what.
pub open spec fn line_match(r: Row) -> Seq<char> {
    html_escaped(r.att@) + "</td><td>"@ + html_escaped(r.def@) + "</td><td>"@ + html_escaped(
        r.objective@,
    ) + "</td><td>"@
}

/// The end of a line: how it went, and what was drawn.
pub open spec fn line_result(r: Row) -> Seq<char> {
    html_escaped(r.outcome@) + "</td><td class=\"muted\">"@ + decimal(r.rooms as nat)
        + "</td><td class=\""@ + (if r.terrain_real {
        "ok"@
    } else {
        "no"@
    }) + "\">"@ + (if r.terrain_real {
        "real✓"@
    } else {
        "??"@
    }) + "</td></tr>"@
}

/// The `k`th line of the index, from 1.
pub open spec fn line(k: int, r: Row) -> Seq<char> {
    line_page(k, r) + line_match(r) + line_result(r)
}

pub open spec fn lines(s: Seq<Row>) -> Seq<char>
    decreases s.len(),
{
    if s.len() == 0 {
        seq![]
    } else {
        lines(s.drop_last()) + line(s.len() as int, s.last())
    }
}

/// The page up to its heading.
pub open spec fn index_head() -> Seq<char> {
    "<!doctype html><html lang=\"en\"><head><meta charset=\"utf-8\"><title>Real-AI self-play combat renders</title>"@
        + "<style>body{margin:0;background:#0b1020;color:#e5e7eb;font:14px/1.6 ui-monospace,Menlo,Consolas,monospace;padding:24px;}"@
        + "h1{font-size:20px;} a{color:#60a5fa;text-decoration:none;} a:hover{text-decoration:underline;}"@
        + "table{border-collapse:collapse;width:100%;margin-top:16px;} td,th{border-bottom:1px solid #334155;padding:8px 10px;text-align:left;vertical-align:top;}"@
        + "th{color:#94a3b8;text-transform:uppercase;font-size:11px;letter-spacing:.05em;} .ok{color:#4ade80;} .no{color:#f87171;} .muted{color:#94a3b8;} .real{color:#a3e635;} .fx{color:#fbbf24;}</style></head><body>"@
}

/// The heading, which counts the lines and those on real ground.
pub open spec fn index_heading(n: nat, on_real: nat) -> Seq<char> {
    "<h1>Real-AI self-play combat renders — "@ + decimal(n)
        + " scenarios</h1><p class=\"muted\">Every row is a REAL self-play match: BOTH sides are the bot's <code>ManagedSimSquad</code> brain (advance / kite / focus-fire / heal), moving over the REAL engine and REAL rover pathing, on REAL mmo:shard3 room terrain (<code>terrain_import::fixtures()</code>, mirror-symmetrized for a fair bed). Compositions are seeded free-form rosters (<code>roster::sample_squad</code>) — varied on BOTH sides (ranged-heavy / melee+heal / mixed / lean-drain / brawl). Open one and press <b>play</b> to watch the attacker form at the west entry, cross the channelled interior (walls funnel the approach, swamps slow it), and engage the defender force holding the core. <span class=\"real\">"@
        + decimal(on_real) + "/"@ + decimal(n)
        + "</span> renders embed the real fixture wall field (not the old synthetic (15,y) corridor).</p>"@
}

pub open spec fn index_columns() -> Seq<char> {
    "<table><tr><th>#</th><th>replay</th><th>real terrain</th><th>attacker comp</th><th>defender comp</th><th>objective</th><th>outcome</th><th>rooms</th><th>terrain</th></tr>"@
}

/// The page that lists the corpus.
pub open spec fn index(s: Seq<Row>) -> Seq<char> {
    index_head() + index_heading(s.len(), real_rows(s)) + index_columns() + lines(s)
        + "</table></body></html>"@
}

fn push_line_page(out: &mut String, k: u64, r: &Row)
    ensures
        final(out)@ == old(out)@ + line_page(k as int, *r),
{
    let ghost before = out@;
    out.append("<tr><td class=\"muted\">");
    push_decimal(out, k);
    out.append("</td><td><a href=\"");
    out.append(r.file.as_str());
    out.append("\">");
    push_html(out, r.file.as_str());
    out.append("</a></td><td class=\"fx\">");
    push_html(out, r.fixture_room.as_str());
    out.append("</td><td>");
    assert(out@ =~= before + line_page(k as int, *r));
}

fn push_line_match(out: &mut String, r: &Row)
    ensures
        final(out)@ == old(out)@ + line_match(*r),
{
    let ghost before = out@;
    push_html(out, r.att);
    out.append("</td><td>");
    push_html(out, r.def);
    out.append("</td><td>");
    push_html(out, r.objective);
    out.append("</td><td>");
    assert(out@ =~= before + line_match(*r));
}

fn push_line_result(out: &mut String, r: &Row)
    ensures
        final(out)@ == old(out)@ + line_result(*r),
{
    let ghost before = out@;
    push_html(out, r.outcome.as_str());
    out.append("</td><td class=\"muted\">");
    push_decimal(out, r.rooms as u64);
    out.append("</td><td class=\"");
    out.append(
        if r.terrain_real {
            "ok"
        } else {
            "no"
        },
    );
    out.append("\">");
    out.append(
        if r.terrain_real {
            "real✓"
        } else {
            "??"
        },
    );
    out.append("</td></tr>");
    assert(out@ =~= before + line_result(*r));
}

fn push_line(out: &mut String, k: u64, r: &Row)
    ensures
        final(out)@ == old(out)@ + line(k as int, *r),
{
    let ghost before = out@;
    push_line_page(out, k, r);
    push_line_match(out, r);
    push_line_result(out, r);
    assert(out@ =~= before + line(k as int, *r));
}

fn head() -> (r: String)
    ensures
        r@ == index_head(),
{
    let mut out: String = String::from_str(
        "<!doctype html><html lang=\"en\"><head><meta charset=\"utf-8\"><title>Real-AI self-play combat renders</title>",
    );
    out.append(
        "<style>body{margin:0;background:#0b1020;color:#e5e7eb;font:14px/1.6 ui-monospace,Menlo,Consolas,monospace;padding:24px;}",
    );
    out.append(
        "h1{font-size:20px;} a{color:#60a5fa;text-decoration:none;} a:hover{text-decoration:underline;}",
    );
    out.append(
        "table{border-collapse:collapse;width:100%;margin-top:16px;} td,th{border-bottom:1px solid #334155;padding:8px 10px;text-align:left;vertical-align:top;}",
    );
    out.append(
        "th{color:#94a3b8;text-transform:uppercase;font-size:11px;letter-spacing:.05em;} .ok{color:#4ade80;} .no{color:#f87171;} .muted{color:#94a3b8;} .real{color:#a3e635;} .fx{color:#fbbf24;}</style></head><body>",
    );
    out
}

fn push_heading(out: &mut String, n: u64, on_real: u64)
    ensures
        final(out)@ == old(out)@ + index_heading(n as nat, on_real as nat),
{
    let ghost before = out@;
    out.append("<h1>Real-AI self-play combat renders — ");
    push_decimal(out, n);
    out.append(
        " scenarios</h1><p class=\"muted\">Every row is a REAL self-play match: BOTH sides are the bot's <code>ManagedSimSquad</code> brain (advance / kite / focus-fire / heal), moving over the REAL engine and REAL rover pathing, on REAL mmo:shard3 room terrain (<code>terrain_import::fixtures()</code>, mirror-symmetrized for a fair bed). Compositions are seeded free-form rosters (<code>roster::sample_squad</code>) — varied on BOTH sides (ranged-heavy / melee+heal / mixed / lean-drain / brawl). Open one and press <b>play</b> to watch the attacker form at the west entry, cross the channelled interior (walls funnel the approach, swamps slow it), and engage the defender force holding the core. <span class=\"real\">",
    );
    push_decimal(out, on_real);
    out.append("/");
    push_decimal(out, n);
    out.append(
        "</span> renders embed the real fixture wall field (not the old synthetic (15,y) corridor).</p>",
    );
    assert(out@ =~= before + index_heading(n as nat, on_real as nat));
}

/// Writes the page that lists the corpus.
pub fn index_page(rows: &Vec<Row>) -> (r: String)
    ensures
        r@ == index(rows@),
{
    let on_real: usize = tally(rows).0;
    let mut out: String = head();
    push_heading(&mut out, rows.len() as u64, on_real as u64);
    out.append(
        "<table><tr><th>#</th><th>replay</th><th>real terrain</th><th>attacker comp</th><th>defender comp</th><th>objective</th><th>outcome</th><th>rooms</th><th>terrain</th></tr>",
    );
    let ghost top = index_head() + index_heading(rows@.len(), real_rows(rows@)) + index_columns();
    let mut i: usize = 0;
    assert(rows@.take(0) =~= seq![]);
    assert(out@ =~= top + lines(rows@.take(0)));
    while i < rows.len()
        invariant
            i <= rows@.len(),
            out@ == top + lines(rows@.take(i as int)),
        decreases rows.len() - i,
    {
        assert(rows@.take(i + 1).drop_last() =~= rows@.take(i as int));
        push_line(&mut out, i as u64 + 1, &rows[i]);
        i = i + 1;
        assert(out@ =~= top + lines(rows@.take(i as int)));
    }
    assert(rows@.take(i as int) =~= rows@);
    out.append("</table></body></html>");
    assert(out@ =~= index(rows@));
    out
}

/// What is said of the `k`th match once its page is written.
pub open spec fn progress(k: int, r: Row, walls: nat) -> Seq<char> {
    right_set(decimal(k as nat), 2) + " "@ + left_set(r.fixture_room@, 6) + " obj="@ + left_set(
        r.objective@,
        13,
    ) + " "@ + left_set(r.att@, 14) + " vs "@ + left_set(r.def@, 14) + " -> "@ + left_set(
        r.outcome@,
        20,
    ) + " rooms="@ + decimal(r.rooms as nat) + " walls="@ + decimal(walls) + " "@ + (
    if r.terrain_real {
        "REAL-TERRAIN✓"@
    } else {
        "??"@
    })
}

/// Says how the `k`th match went.
pub fn progress_line(k: u64, r: &Row, walls: usize) -> (s: String)
    ensures
        s@ == progress(k as int, *r, walls as nat),
{
    let mut number: String = String::new();
    push_decimal(&mut number, k);
    assert(number@ =~= decimal(k as nat));
    let mut out: String = String::new();
    push_right(&mut out, number.as_str(), 2);
    out.append(" ");
    push_left(&mut out, r.fixture_room.as_str(), 6);
    out.append(" obj=");
    push_left(&mut out, r.objective, 13);
    out.append(" ");
    push_left(&mut out, r.att, 14);
    out.append(" vs ");
    push_left(&mut out, r.def, 14);
    out.append(" -> ");
    push_left(&mut out, r.outcome.as_str(), 20);
    out.append(" rooms=");
    push_decimal(&mut out, r.rooms as u64);
    out.append(" walls=");
    push_decimal(&mut out, walls as u64);
    out.append(" ");
    out.append(
        if r.terrain_real {
            "REAL-TERRAIN✓"
        } else {
            "??"
        },
    );
    assert(out@ =~= progress(k as int, *r, walls as nat));
    out
}

// ── Is the corpus worth listing? ───────────────────────────────────────────

/// Why a corpus is not worth listing.
#[derive(Clone, Copy, Debug, PartialEq, Eq, Structural)]
pub enum Shortfall {
    /// It has fewer pages than it should.
    TooSmall { rows: usize },
    /// More than a quarter of its pages do not show real ground.
    TooFewReal { on_real: usize, rows: usize },
}

impl Shortfall {
    pub open spec fn said(self) -> Seq<char> {
        match self {
            Shortfall::TooSmall { rows } => "corpus too small ("@ + decimal(rows as nat) + " < "@
                + decimal(FEWEST_ROWS as nat) + ")"@,
            Shortfall::TooFewReal { on_real, rows } => "too few renders embed real terrain ("@
                + decimal(on_real as nat) + "/"@ + decimal(rows as nat) + ")"@,
        }
    }

    pub fn message(&self) -> (r: String)
        ensures
            r@ == self.said(),
    {
        let mut out: String = String::new();
        match *self {
            Shortfall::TooSmall { rows } => {
                out.append("corpus too small (");
                push_decimal(&mut out, rows as u64);
                out.append(" < ");
                push_decimal(&mut out, FEWEST_ROWS as u64);
                out.append(")");
            },
            Shortfall::TooFewReal { on_real, rows } => {
                out.append("too few renders embed real terrain (");
                push_decimal(&mut out, on_real as u64);
                out.append("/");
                push_decimal(&mut out, rows as u64);
                out.append(")");
            },
        }
        assert(out@ =~= self.said());
        out
    }
}

/// Whether the corpus has enough pages, and enough of them on real ground.
pub fn shortfall(rows: &Vec<Row>) -> (r: Option<Shortfall>)
    ensures
        r == if rows@.len() < FEWEST_ROWS {
            Some(Shortfall::TooSmall { rows: rows@.len() as usize })
        } else if 4 * real_rows(rows@) < 3 * rows@.len() {
            Some(
                Shortfall::TooFewReal {
                    on_real: real_rows(rows@) as usize,
                    rows: rows@.len() as usize,
                },
            )
        } else {
            None
        },
        r is None ==> rows@.len() >= 20 && real_rows(rows@) + real_rows(rows@) + real_rows(rows@)
            + real_rows(rows@) >= 3 * rows@.len(),
        rows@.len() >= 20 && real_rows(rows@) == rows@.len() ==> r is None,
        rows@.len() <= 19 ==> r is Some && r->0 is TooSmall,
{
    let n: usize = rows.len();
    if n < FEWEST_ROWS {
        return Some(Shortfall::TooSmall { rows: n });
    }
    let on_real: usize = tally(rows).0;
    if 4 * (on_real as u128) < 3 * (n as u128) {
        return Some(Shortfall::TooFewReal { on_real, rows: n });
    }
    None
}

// ── What the index goes by ─────────────────────────────────────────────────

/// What is found stands there, and nowhere earlier; where nothing is found it stands nowhere.
pub proof fn the_first_place_is_found(t: Seq<char>, needle: Seq<char>, from: int, k: int)
    requires
        0 <= from,
    ensures
        first_at(t, needle, from) matches Some(p) ==> from <= p && p + needle.len() <= t.len()
            && t.subrange(p, p + needle.len()) == needle && (from <= k < p ==> t.subrange(
            k,
            k + needle.len(),
        ) != needle),
        first_at(t, needle, from) is None && from <= k && k + needle.len() <= t.len()
            ==> t.subrange(k, k + needle.len()) != needle,
    decreases t.len() + 1 - from,
{
    if from + needle.len() <= t.len() && t.subrange(from, from + needle.len()) != needle {
        the_first_place_is_found(t, needle, from + 1, k);
    }
}

/// A room's name is one to eight letters and digits that begin with `W` or `E`.
pub proof fn a_room_name_begins_west_or_east(name: Seq<char>, i: int)
    ensures
        is_room_name(name) ==> 1 <= name.len() <= 8 && (name[0] == 'W' || name[0] == 'E'),
        is_room_name(name) && 0 <= i < name.len() ==> ('a' <= name[i] <= 'z') || ('A' <= name[i]
            <= 'Z') || ('0' <= name[i] <= '9'),
        name.len() == 9 ==> !is_room_name(name),
        name.len() >= 1 && name[0] == 'N' ==> !is_room_name(name),
        name.len() == 1 && name[0] == 'W' ==> is_room_name(name),
{
    if is_room_name(name) && 0 <= i < name.len() {
        assert(is_word(name[i]));
    }
}

/// In the dictionary the first difference decides, and a beginning comes before the whole.
pub proof fn the_dictionary_goes_by_the_first_difference(
    head: Seq<char>,
    a: char,
    b: char,
    x: Seq<char>,
    y: Seq<char>,
)
    ensures
        a < b ==> comes_before(head + seq![a] + x, head + seq![b] + y),
        comes_before(head, head + seq![a] + x),
        !comes_before(head, head),
        !comes_before(head + seq![a] + x, head),
    decreases head.len(),
{
    let (p, q) = (head + seq![a] + x, head + seq![b] + y);
    if head.len() == 0 {
        assert(p[0] == a && q[0] == b);
    } else {
        the_dictionary_goes_by_the_first_difference(head.skip(1), a, b, x, y);
        assert(p.skip(1) =~= head.skip(1) + seq![a] + x);
        assert(q.skip(1) =~= head.skip(1) + seq![b] + y);
        assert(p[0] == head[0] && q[0] == head[0]);
    }
}

/// One more line counts where it shows real ground, and where it shows a fight.
pub proof fn one_more_line_counts_by_what_it_shows(s: Seq<Row>, r: Row)
    ensures
        r.terrain_real ==> real_rows(s.push(r)) == real_rows(s) + 1,
        !r.terrain_real ==> real_rows(s.push(r)) == real_rows(s),
        r.frames ==> fought_rows(s.push(r)) == fought_rows(s) + 1,
        !r.frames ==> fought_rows(s.push(r)) == fought_rows(s),
        real_rows(seq![]) == 0 && fought_rows(seq![]) == 0,
        lines(s.push(r)) == lines(s) + line(s.len() as int + 1, r),
        lines(seq![]).len() == 0,
{
    assert(s.push(r).drop_last() =~= s);
}

/// The end of a line tells real ground from other.
pub proof fn a_line_marks_real_ground(r: Row)
    ensures
        ({
            let before = html_escaped(r.outcome@) + "</td><td class=\"muted\">"@ + decimal(
                r.rooms as nat,
            ) + "</td><td class=\""@;
            &&& r.terrain_real ==> line_result(r) == before + "ok"@ + "\">"@ + "real✓"@
                + "</td></tr>"@
            &&& !r.terrain_real ==> line_result(r) == before + "no"@ + "\">"@ + "??"@
                + "</td></tr>"@
        }),
{
}

/// The line on a match has its parts in columns of 2, 6, 13, 14, 14 and 20 characters.
#[verifier::rlimit(60)]
pub proof fn a_line_on_a_match_has_its_columns(k: int, r: Row, walls: nat)
    requires
        decimal(k as nat).len() <= 2,
        r.fixture_room@.len() <= 6,
        r.objective@.len() <= 13,
        r.att@.len() <= 14,
        r.def@.len() <= 14,
        r.outcome@.len() <= 20,
    ensures
        progress(k, r, walls).len() > 91,
        progress(k, r, walls).take(2) == right_set(decimal(k as nat), 2),
        progress(k, r, walls).subrange(9, 14) == " obj="@,
        progress(k, r, walls).subrange(42, 46) == " vs "@,
        progress(k, r, walls).subrange(60, 64) == " -> "@,
        progress(k, r, walls).subrange(84, 91) == " rooms="@,
{
    reveal_strlit(" ");
    reveal_strlit(" obj=");
    reveal_strlit(" vs ");
    reveal_strlit(" -> ");
    reveal_strlit(" rooms=");
    let (number, room) = (right_set(decimal(k as nat), 2), left_set(r.fixture_room@, 6));
    let (aim, att) = (left_set(r.objective@, 13), left_set(r.att@, 14));
    let (def, end) = (left_set(r.def@, 14), left_set(r.outcome@, 20));
    a_set_text_fills_its_column(decimal(k as nat), 2, 0);
    a_set_text_fills_its_column(r.fixture_room@, 6, 0);
    a_set_text_fills_its_column(r.objective@, 13, 0);
    a_set_text_fills_its_column(r.att@, 14, 0);
    a_set_text_fills_its_column(r.def@, 14, 0);
    a_set_text_fills_its_column(r.outcome@, 20, 0);
    assert(number.len() == 2 && room.len() == 6 && aim.len() == 13 && att.len() == 14 && def.len()
        == 14 && end.len() == 20);
    a_numeral_stands_for_its_number(r.rooms as nat);
    let p = progress(k, r, walls);
    assert(p.take(2) =~= number);
    assert(p.subrange(9, 14) =~= " obj="@);
    assert(p.subrange(42, 46) =~= " vs "@);
    assert(p.subrange(60, 64) =~= " -> "@);
    assert(p.subrange(84, 91) =~= " rooms="@);
}

} // verus!
