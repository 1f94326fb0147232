use vstd::prelude::*;

use crate::args::ReportType;
use crate::fixed::fits;
use crate::model::{StoreError, Fault, PortLine};
use crate::text::str_eq;
use crate::valuation::{weight, weight_of};

verus! {

/// One group of a report: the positions sharing a value of the chosen
/// dimension, their summed amount and their share of the total.
pub struct ReportLine {
    pub group: String,
    pub amount_usd: i128,
    pub amount_perc: i128,
}

/// The value of the chosen dimension for a position.
pub open spec fn group_key(l: PortLine, rt: ReportType) -> Seq<char> {
    match rt {
        ReportType::Currency => l.currency@,
        ReportType::Asset => l.asset@,
        ReportType::Group => l.group@,
        ReportType::Riskyness => l.riskyness@,
        ReportType::Tags => l.tags@,
    }
}

/// Summed amount of the positions whose dimension has value `key`.
pub open spec fn group_sum(lines: Seq<PortLine>, key: Seq<char>, rt: ReportType) -> int
    decreases lines.len(),
{
    if lines.len() == 0 {
        0
    } else {
        group_sum(lines.drop_last(), key, rt) + if group_key(lines.last(), rt) == key {
            lines.last().amount_usd as int
        } else {
            0
        }
    }
}

/// Every running per-group total, in order, fits an `i128`.
pub open spec fn group_sums_fit(lines: Seq<PortLine>, rt: ReportType) -> bool {
    forall|i: int, key: Seq<char>|
        0 <= i <= lines.len() ==> fits(#[trigger] group_sum(lines.take(i), key, rt))
}

/// `out` is the grouping of `lines`: one group per distinct value, none
/// other, each with its summed amount; shares not yet set.
pub open spec fn is_grouping(lines: Seq<PortLine>, out: Seq<ReportLine>, rt: ReportType) -> bool {
    &&& forall|a: int, b: int|
        0 <= a < out.len() && 0 <= b < out.len() && a != b ==> (#[trigger] out[a]).group@
            != (#[trigger] out[b]).group@
    &&& forall|g: int|
        0 <= g < out.len() ==> (#[trigger] out[g]).amount_usd == group_sum(lines, out[g].group@, rt)
    &&& forall|k: int|
        0 <= k < lines.len() ==> exists|g: int|
            0 <= g < out.len() && (#[trigger] out[g]).group@ == group_key(#[trigger] lines[k], rt)
    &&& forall|g: int|
        0 <= g < out.len() ==> exists|k: int|
            0 <= k < lines.len() && group_key(#[trigger] lines[k], rt) == (#[trigger] out[g]).group@
}

fn key_of(l: &PortLine, rt: ReportType) -> (r: &String)
    ensures
        r@ == group_key(*l, rt),
{
    match rt {
        ReportType::Currency => &l.currency,
        ReportType::Asset => &l.asset,
        ReportType::Group => &l.group,
        ReportType::Riskyness => &l.riskyness,
        ReportType::Tags => &l.tags,
    }
}

/// `is_grouping`, and no amount is summed under a value that has no group.
pub open spec fn grouped(lines: Seq<PortLine>, out: Seq<ReportLine>, rt: ReportType) -> bool {
    &&& is_grouping(lines, out, rt)
    &&& forall|key: Seq<char>|
        (forall|g: int| 0 <= g < out.len() ==> (#[trigger] out[g]).group@ != key) ==> (
        #[trigger] group_sum(lines, key, rt)) == 0
}

proof fn lemma_group_sum_push(lines: Seq<PortLine>, l: PortLine, key: Seq<char>, rt: ReportType)
    ensures
        group_sum(lines.push(l), key, rt) == group_sum(lines, key, rt) + if group_key(l, rt) == key {
            l.amount_usd as int
        } else {
            0
        },
{
    assert(lines.push(l).drop_last() =~= lines);
}

proof fn lemma_grouped_fits(lines: Seq<PortLine>, out: Seq<ReportLine>, rt: ReportType, key: Seq<char>)
    requires
        grouped(lines, out, rt),
    ensures
        fits(group_sum(lines, key, rt)),
{
    if exists|h: int| 0 <= h < out.len() && (#[trigger] out[h]).group@ == key {
        let h = choose|h: int| 0 <= h < out.len() && (#[trigger] out[h]).group@ == key;
        assert(out[h].amount_usd == group_sum(lines, out[h].group@, rt));
    }
}

#[verifier::rlimit(30)]
proof fn lemma_grouped_add(
    lines: Seq<PortLine>,
    out: Seq<ReportLine>,
    rt: ReportType,
    l: PortLine,
    g: int,
    out2: Seq<ReportLine>,
)
    requires
        grouped(lines, out, rt),
        0 <= g < out.len(),
        out[g].group@ == group_key(l, rt),
        out2.len() == out.len(),
        out2[g].group@ == out[g].group@,
        out2[g].amount_usd == out[g].amount_usd + l.amount_usd,
        forall|h: int| 0 <= h < out.len() && h != g ==> out2[h] == out[h],
    ensures
        grouped(lines.push(l), out2, rt),
{
    let p2 = lines.push(l);
    assert forall|key: Seq<char>| true implies #[trigger] group_sum(p2, key, rt) == group_sum(lines, key, rt) + if group_key(l, rt) == key {
        l.amount_usd as int
    } else {
        0
    } by {
        lemma_group_sum_push(lines, l, key, rt);
    }
    assert forall|a: int, b: int|
        0 <= a < out2.len() && 0 <= b < out2.len() && a != b implies (#[trigger] out2[a]).group@
            != (#[trigger] out2[b]).group@ by {
        assert(out2[a].group@ == out[a].group@);
        assert(out2[b].group@ == out[b].group@);
    }
    assert forall|h: int| 0 <= h < out2.len() implies (#[trigger] out2[h]).amount_usd == group_sum(p2, out2[h].group@, rt) by {
        assert(out2[h].group@ == out[h].group@);
        if h != g {
            assert(out[h].group@ != out[g].group@);
        }
    }
    assert forall|k: int| 0 <= k < p2.len() implies exists|h: int|
        0 <= h < out2.len() && (#[trigger] out2[h]).group@ == group_key(#[trigger] p2[k], rt) by {
        if k < lines.len() {
            assert(p2[k] == lines[k]);
            let h = choose|h: int| 0 <= h < out.len() && (#[trigger] out[h]).group@ == group_key(lines[k], rt);
            assert(out2[h].group@ == out[h].group@);
        } else {
            assert(out2[g].group@ == group_key(p2[k], rt));
        }
    }
    assert forall|h: int| 0 <= h < out2.len() implies exists|k: int|
        0 <= k < p2.len() && group_key(#[trigger] p2[k], rt) == (#[trigger] out2[h]).group@ by {
        let k = choose|k: int| 0 <= k < lines.len() && group_key(#[trigger] lines[k], rt) == out[h].group@;
        assert(p2[k] == lines[k]);
        assert(out2[h].group@ == out[h].group@);
    }
    assert forall|key: Seq<char>|
        (forall|h: int| 0 <= h < out2.len() ==> (#[trigger] out2[h]).group@ != key) implies (
        #[trigger] group_sum(p2, key, rt)) == 0 by {
        assert forall|h: int| 0 <= h < out.len() implies (#[trigger] out[h]).group@ != key by {
            assert(out2[h].group@ == out[h].group@);
        }
        assert(out2[g].group@ != key);
    }
}

#[verifier::rlimit(30)]
proof fn lemma_grouped_new(
    lines: Seq<PortLine>,
    out: Seq<ReportLine>,
    rt: ReportType,
    l: PortLine,
    n: ReportLine,
)
    requires
        grouped(lines, out, rt),
        forall|h: int| 0 <= h < out.len() ==> (#[trigger] out[h]).group@ != group_key(l, rt),
        n.group@ == group_key(l, rt),
        n.amount_usd == l.amount_usd,
    ensures
        grouped(lines.push(l), out.push(n), rt),
{
    let p2 = lines.push(l);
    let out2 = out.push(n);
    assert forall|key: Seq<char>| true implies #[trigger] group_sum(p2, key, rt) == group_sum(lines, key, rt) + if group_key(l, rt) == key {
        l.amount_usd as int
    } else {
        0
    } by {
        lemma_group_sum_push(lines, l, key, rt);
    }
    assert(group_sum(lines, n.group@, rt) == 0);
    assert forall|a: int, b: int|
        0 <= a < out2.len() && 0 <= b < out2.len() && a != b implies (#[trigger] out2[a]).group@
            != (#[trigger] out2[b]).group@ by {
        if a < out.len() && b < out.len() {
            assert(out2[a] == out[a]);
            assert(out2[b] == out[b]);
        } else if a < out.len() {
            assert(out2[a] == out[a]);
        } else {
            assert(out2[b] == out[b]);
        }
    }
    assert forall|h: int| 0 <= h < out2.len() implies (#[trigger] out2[h]).amount_usd == group_sum(p2, out2[h].group@, rt) by {
        if h < out.len() {
            assert(out2[h] == out[h]);
        }
    }
    assert forall|k: int| 0 <= k < p2.len() implies exists|h: int|
        0 <= h < out2.len() && (#[trigger] out2[h]).group@ == group_key(#[trigger] p2[k], rt) by {
        if k < lines.len() {
            assert(p2[k] == lines[k]);
            let h = choose|h: int| 0 <= h < out.len() && (#[trigger] out[h]).group@ == group_key(lines[k], rt);
            assert(out2[h] == out[h]);
        } else {
            assert(out2[out.len() as int] == n);
        }
    }
    assert forall|h: int| 0 <= h < out2.len() implies exists|k: int|
        0 <= k < p2.len() && group_key(#[trigger] p2[k], rt) == (#[trigger] out2[h]).group@ by {
        if h < out.len() {
            let k = choose|k: int| 0 <= k < lines.len() && group_key(#[trigger] lines[k], rt) == out[h].group@;
            assert(p2[k] == lines[k]);
            assert(out2[h] == out[h]);
        } else {
            assert(p2[lines.len() as int] == l);
        }
    }
    assert forall|key: Seq<char>|
        (forall|h: int| 0 <= h < out2.len() ==> (#[trigger] out2[h]).group@ != key) implies (
        #[trigger] group_sum(p2, key, rt)) == 0 by {
        assert forall|h: int| 0 <= h < out.len() implies (#[trigger] out[h]).group@ != key by {
            assert(out2[h] == out[h]);
        }
        assert(out2[out.len() as int] == n);
    }
}

fn find_group(out: &Vec<ReportLine>, key: &String) -> (r: Option<usize>)
    ensures
        match r {
            Some(g) => g < out@.len() && out@[g as int].group@ == key@,
            None => forall|h: int| 0 <= h < out@.len() ==> (#[trigger] out@[h]).group@ != key@,
        },
{
    let mut g: usize = 0;
    while g < out.len()
        invariant
            g <= out@.len(),
            forall|h: int| 0 <= h < g ==> (#[trigger] out@[h]).group@ != key@,
        decreases out@.len() - g,
    {
        if str_eq(out[g].group.as_str(), key.as_str()) {
            return Some(g);
        }
        g = g + 1;
    }
    None
}

/// Groups positions by the chosen dimension, in order of first appearance,
/// summing their amounts; `None` where a running group total leaves `i128`.
pub fn group_lines(lines: &Vec<PortLine>, rt: ReportType) -> (r: Option<Vec<ReportLine>>)
    ensures
        match r {
            Some(out) => group_sums_fit(lines@, rt) && is_grouping(lines@, out@, rt),
            None => !group_sums_fit(lines@, rt),
        },
{
    let mut out: Vec<ReportLine> = Vec::new();
    let mut i: usize = 0;
    proof {
        assert(lines@.take(0) =~= Seq::<PortLine>::empty());
        assert forall|j: int, key: Seq<char>| 0 <= j <= 0 implies fits(
            #[trigger] group_sum(lines@.take(j), key, rt),
        ) by {
            assert(lines@.take(j).len() == 0);
        }
    }
    while i < lines.len()
        invariant
            i <= lines@.len(),
            grouped(lines@.take(i as int), out@, rt),
            forall|j: int, key: Seq<char>|
                0 <= j <= i ==> fits(#[trigger] group_sum(lines@.take(j), key, rt)),
        decreases lines@.len() - i,
    {
        let key = key_of(&lines[i], rt);
        let amount = lines[i].amount_usd;
        let ghost old_out = out@;
        let ghost p = lines@.take(i as int);
        proof {
            assert(lines@.take(i + 1) =~= p.push(lines@[i as int]));
        }
        match find_group(&out, key) {
            Some(g) => {
                let sum = match out[g].amount_usd.checked_add(amount) {
                    Some(s) => s,
                    None => {
                        proof {
                            lemma_group_sum_push(p, lines@[i as int], key@, rt);
                            assert(!fits(group_sum(lines@.take(i + 1), key@, rt)));
                        }
                        return None;
                    },
                };
                let mut line = out.remove(g);
                line.amount_usd = sum;
                out.insert(g, line);
                proof {
                    lemma_grouped_add(p, old_out, rt, lines@[i as int], g as int, out@);
                }
            },
            None => {
                out.push(ReportLine { group: key.clone(), amount_usd: amount, amount_perc: 0 });
                proof {
                    lemma_grouped_new(p, old_out, rt, lines@[i as int], out@[old_out.len() as int]);
                    assert(out@ =~= old_out.push(out@[old_out.len() as int]));
                }
            },
        }
        proof {
            assert forall|j: int, key2: Seq<char>| 0 <= j <= i + 1 implies fits(
                #[trigger] group_sum(lines@.take(j), key2, rt),
            ) by {
                if j == i + 1 {
                    lemma_grouped_fits(lines@.take(i + 1), out@, rt, key2);
                }
            }
        }
        i = i + 1;
    }
    proof {
        assert(lines@.take(i as int) =~= lines@);
    }
    Some(out)
}

/// Sets each group's share of `total`; `None` where a share leaves `i128`.
pub fn set_group_weights(groups: Vec<ReportLine>, total: i128) -> (r: Option<Vec<ReportLine>>)
    ensures
        match r {
            Some(v) => v@.len() == groups@.len() && forall|k: int|
                0 <= k < groups@.len() ==> {
                    &&& weight((#[trigger] groups@[k]).amount_usd as int, total as int) is Some
                    &&& v@[k] == ReportLine {
                        amount_perc: weight(groups@[k].amount_usd as int, total as int)->Some_0 as i128,
                        ..groups@[k]
                    }
                },
            None => exists|k: int|
                0 <= k < groups@.len() && (#[trigger] weight(groups@[k].amount_usd as int, total as int))
                    is None,
        },
{
    let ghost src = groups@;
    let mut rest = groups;
    let mut out: Vec<ReportLine> = Vec::new();
    proof {
        assert(rest@ =~= src.skip(0));
    }
    while rest.len() > 0
        invariant
            src == groups@,
            out@.len() + rest@.len() == src.len(),
            rest@ =~= src.skip(out@.len() as int),
            forall|k: int|
                0 <= k < out@.len() ==> {
                    &&& weight((#[trigger] src[k]).amount_usd as int, total as int) is Some
                    &&& out@[k] == ReportLine {
                        amount_perc: weight(src[k].amount_usd as int, total as int)->Some_0 as i128,
                        ..src[k]
                    }
                },
        decreases rest@.len(),
    {
        let ghost k = out@.len() as int;
        let mut l = rest.remove(0);
        assert(l == src[k]);
        match weight_of(l.amount_usd, total) {
            Some(w) => {
                l.amount_perc = w;
                out.push(l);
            },
            None => {
                assert(weight(src[k].amount_usd as int, total as int) is None);
                return None;
            },
        }
        assert(rest@ =~= src.skip(out@.len() as int));
    }
    Some(out)
}

} // verus!
