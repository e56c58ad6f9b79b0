//! The dashboard: which scenarios it replays, and the page that links them.

use crate::text::{decimal, html_escaped, push_decimal, push_html};
use vstd::prelude::*;
use vstd::string::*;

verus! {

/// Where a scenario of the dashboard comes from.
#[derive(Clone, Copy, Debug, PartialEq, Eq, Structural)]
pub enum Source {
    Designed,
    Permutations,
    RandomDefendedBase,
}

/// A scenario of the dashboard.
#[derive(Clone, Copy, Debug, PartialEq, Eq, Structural)]
pub struct Pick {
    pub source: Source,
    pub index: u32,
}

/// How many seeded bases are shown.
pub const SHOWN_BASES: u32 = 8;

/// The layouts of the enumerated grid that are shown.
pub open spec fn permutation_picks() -> Seq<u32> {
    seq![0u32, 13u32, 40u32, 75u32]
}

/// Every designed scenario, a few layouts of the grid, and the first seeded bases.
pub open spec fn picks(designed: nat) -> Seq<Pick> {
    Seq::new(designed, |i: int| Pick { source: Source::Designed, index: i as u32 }) + Seq::new(
        4,
        |i: int| Pick { source: Source::Permutations, index: permutation_picks()[i] },
    ) + Seq::new(SHOWN_BASES as nat, |i: int| Pick { source: Source::RandomDefendedBase, index: i as u32 })
}

/// The scenarios of the dashboard, out of so many designed ones.
pub fn dashboard_picks(designed: u32) -> (r: Vec<Pick>)
    ensures
        r@ == picks(designed as nat),
{
    let ghost a = Seq::new(
        designed as nat,
        |i: int| Pick { source: Source::Designed, index: i as u32 },
    );
    let ghost b = Seq::new(
        4,
        |i: int| Pick { source: Source::Permutations, index: permutation_picks()[i] },
    );
    let ghost c = Seq::new(
        SHOWN_BASES as nat,
        |i: int| Pick { source: Source::RandomDefendedBase, index: i as u32 },
    );
    let mut out: Vec<Pick> = Vec::new();
    let mut i: u32 = 0;
    while i < designed
        invariant
            i <= designed,
            a == Seq::new(
                designed as nat,
                |k: int| Pick { source: Source::Designed, index: k as u32 },
            ),
            out@ == a.take(i as int),
        decreases designed - i,
    {
        out.push(Pick { source: Source::Designed, index: i });
        i = i + 1;
        assert(out@ =~= a.take(i as int));
    }
    out.push(Pick { source: Source::Permutations, index: 0 });
    out.push(Pick { source: Source::Permutations, index: 13 });
    out.push(Pick { source: Source::Permutations, index: 40 });
    out.push(Pick { source: Source::Permutations, index: 75 });
    assert(out@ =~= a + b + c.take(0));
    let mut j: u32 = 0;
    while j < SHOWN_BASES
        invariant
            j <= SHOWN_BASES,
            c == Seq::new(
                SHOWN_BASES as nat,
                |k: int| Pick { source: Source::RandomDefendedBase, index: k as u32 },
            ),
            out@ == a + b + c.take(j as int),
        decreases SHOWN_BASES - j,
    {
        out.push(Pick { source: Source::RandomDefendedBase, index: j });
        j = j + 1;
        assert(out@ =~= a + b + c.take(j as int));
    }
    assert(out@ =~= picks(designed as nat));
    out
}

impl Pick {
    pub open spec fn replay_name(self) -> Seq<char> {
        (match self.source {
            Source::Designed => "selfplay-designed-"@,
            Source::Permutations => "selfplay-perm-"@,
            Source::RandomDefendedBase => "calib-rdb-"@,
        }) + decimal(self.index as nat)
    }

    pub open spec fn seen_through(self) -> Seq<char> {
        match self.source {
            Source::RandomDefendedBase => "calibration"@,
            _ => "self-play"@,
        }
    }

    /// The name of its replay.
    pub fn name(&self) -> (r: String)
        ensures
            r@ == self.replay_name(),
    {
        let mut s: String = String::from_str(
            match self.source {
                Source::Designed => "selfplay-designed-",
                Source::Permutations => "selfplay-perm-",
                Source::RandomDefendedBase => "calib-rdb-",
            },
        );
        push_decimal(&mut s, self.index as u64);
        s
    }

    /// What it shows.
    pub fn lens(&self) -> (r: &'static str)
        ensures
            r@ == self.seen_through(),
    {
        match self.source {
            Source::RandomDefendedBase => "calibration",
            _ => "self-play",
        }
    }
}

/// A line of the dashboard.
#[derive(Debug)]
pub struct Entry {
    pub file: String,
    pub title: String,
    pub lens: &'static str,
    pub verdict: String,
    pub pass: bool,
}

pub open spec fn row(e: Entry) -> Seq<char> {
    "<tr><td>"@ + (if e.pass {
        "<span class=\"ok\">●</span>"@
    } else {
        "<span class=\"no\">●</span>"@
    }) + " <a href=\""@ + html_escaped(e.file@) + "\">"@ + html_escaped(e.title@)
        + "</a></td><td class=\"lens\">"@ + e.lens@ + "</td><td>"@ + html_escaped(e.verdict@)
        + "</td></tr>"@
}

pub open spec fn rows(s: Seq<Entry>) -> Seq<char>
    decreases s.len(),
{
    if s.len() == 0 {
        seq![]
    } else {
        rows(s.drop_last()) + row(s.last())
    }
}

/// The page around the lines.
pub open spec fn sheet_head() -> Seq<char> {
    "<!doctype html><html lang=\"en\"><head><meta charset=\"utf-8\"><title>Combat harness replays</title><style>"@
        + "body{background:#0b1020;color:#e5e7eb;font:14px/1.6 ui-monospace,Menlo,Consolas,monospace;margin:24px;}"@
        + "h1{font-size:18px;} table{border-collapse:collapse;width:100%;} td,th{border-bottom:1px solid #334155;padding:6px 10px;text-align:left;}"@
        + "a{color:#3b82f6;} .ok{color:#22c55e;} .no{color:#ef4444;} .lens{color:#94a3b8;}</style></head><body>"@
        + "<h1>Combat harness replays — open any scenario to scrub the engagement</h1>"@
        + "<table><tr><th>scenario</th><th>lens</th><th>verdict</th></tr>"@
}

pub open spec fn sheet(s: Seq<Entry>) -> Seq<char> {
    sheet_head() + rows(s) + "</table></body></html>"@
}

fn push_row(e: &Entry, out: &mut String)
    ensures
        final(out)@ == old(out)@ + row(*e),
{
    let ghost before = out@;
    out.append("<tr><td>");
    out.append(
        if e.pass {
            "<span class=\"ok\">●</span>"
        } else {
            "<span class=\"no\">●</span>"
        },
    );
    out.append(" <a href=\"");
    push_html(out, e.file.as_str());
    out.append("\">");
    push_html(out, e.title.as_str());
    out.append("</a></td><td class=\"lens\">");
    out.append(e.lens);
    out.append("</td><td>");
    push_html(out, e.verdict.as_str());
    out.append("</td></tr>");
    assert(out@ =~= before + row(*e));
}

/// The page that links the replays, one line each.
pub fn contact_sheet(entries: &Vec<Entry>) -> (r: String)
    ensures
        r@ == sheet(entries@),
{
    let mut out: String = String::from_str(
        "<!doctype html><html lang=\"en\"><head><meta charset=\"utf-8\"><title>Combat harness replays</title><style>",
    );
    out.append(
        "body{background:#0b1020;color:#e5e7eb;font:14px/1.6 ui-monospace,Menlo,Consolas,monospace;margin:24px;}",
    );
    out.append(
        "h1{font-size:18px;} table{border-collapse:collapse;width:100%;} td,th{border-bottom:1px solid #334155;padding:6px 10px;text-align:left;}",
    );
    out.append(
        "a{color:#3b82f6;} .ok{color:#22c55e;} .no{color:#ef4444;} .lens{color:#94a3b8;}</style></head><body>",
    );
    out.append("<h1>Combat harness replays — open any scenario to scrub the engagement</h1>");
    out.append("<table><tr><th>scenario</th><th>lens</th><th>verdict</th></tr>");
    let ghost head = sheet_head();
    assert(out@ =~= head);
    let mut i: usize = 0;
    assert(entries@.take(0) =~= Seq::<Entry>::empty());
    assert(out@ =~= head + rows(entries@.take(0)));
    while i < entries.len()
        invariant
            i <= entries@.len(),
            out@ == head + rows(entries@.take(i as int)),
        decreases entries.len() - i,
    {
        assert(entries@.take(i as int + 1).drop_last() =~= entries@.take(i as int));
        push_row(&entries[i], &mut out);
        i = i + 1;
        assert(out@ =~= head + rows(entries@.take(i as int)));
    }
    assert(entries@.take(i as int) =~= entries@);
    out.append("</table></body></html>");
    out
}

/// The dashboard shows every designed scenario once and in order, then four layouts of the
/// grid, then the first eight seeded bases.
pub proof fn the_dashboard_shows_its_picks(designed: nat, i: int)
    requires
        designed <= u32::MAX,
    ensures
        picks(designed).len() == designed + 12,
        0 <= i < designed ==> picks(designed)[i] == (Pick {
            source: Source::Designed,
            index: i as u32,
        }),
        designed <= i < designed + 4 ==> picks(designed)[i].source is Permutations,
        picks(designed)[designed as int].index == 0,
        picks(designed)[designed as int + 1].index == 13,
        picks(designed)[designed as int + 2].index == 40,
        picks(designed)[designed as int + 3].index == 75,
        designed + 4 <= i < designed + 12 ==> picks(designed)[i] == (Pick {
            source: Source::RandomDefendedBase,
            index: (i - designed - 4) as u32,
        }),
{
}

/// A pick is found by its name: no two of the dashboard's share one.
pub proof fn picks_have_their_own_names(a: Pick, b: Pick)
    requires
        a.replay_name() == b.replay_name(),
    ensures
        a == b,
{
    reveal_strlit("selfplay-designed-");
    reveal_strlit("selfplay-perm-");
    reveal_strlit("calib-rdb-");
    let (x, y) = (a.replay_name(), b.replay_name());
    let (da, db) = (decimal(a.index as nat), decimal(b.index as nat));
    assert(x[0] == y[0] && x[9] == y[9]);
    assert(a.source == b.source);
    let n = if a.source is Designed {
        18int
    } else if a.source is Permutations {
        14
    } else {
        10
    };
    assert(x.skip(n) =~= da);
    assert(y.skip(n) =~= db);
    crate::text::decimal_is_injective(a.index as nat, b.index as nat);
}

/// Seeded bases are seen through the calibration, all others through self-play.
pub proof fn picks_have_their_lens(p: Pick)
    ensures
        p.source is RandomDefendedBase ==> p.seen_through() == "calibration"@,
        p.source is Designed || p.source is Permutations ==> p.seen_through() == "self-play"@,
{
}

/// A line's mark tells whether its scenario passed.
pub proof fn the_mark_tells_the_verdict(e: Entry)
    ensures
        e.pass ==> ("<tr><td>"@ + "<span class=\"ok\">●</span>"@).is_prefix_of(row(e)),
        !e.pass ==> ("<tr><td>"@ + "<span class=\"no\">●</span>"@).is_prefix_of(row(e)),
{
    let rest = " <a href=\""@ + html_escaped(e.file@) + "\">"@ + html_escaped(e.title@)
        + "</a></td><td class=\"lens\">"@ + e.lens@ + "</td><td>"@ + html_escaped(e.verdict@)
        + "</td></tr>"@;
    let head = "<tr><td>"@ + (if e.pass {
        "<span class=\"ok\">●</span>"@
    } else {
        "<span class=\"no\">●</span>"@
    });
    assert(row(e) =~= head + rest);
}

/// The sheet has a line for each entry, in order.
pub proof fn the_sheet_has_a_line_each(s: Seq<Entry>, e: Entry)
    ensures
        rows(s.push(e)) == rows(s) + row(e),
        rows(seq![]).len() == 0,
{
    assert(s.push(e).drop_last() =~= s);
}

} // verus!
