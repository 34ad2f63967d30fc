//! The Narrative Agent: writes the account of the tribunal into the genome.
use vstd::prelude::*;
use crate::error::HephaestusError;
use crate::memory::genome_store::{unix_time_secs, RejectionRecord, RepairGenome};
use crate::text::{
    owned, opt_view, byte_len, chars_of, decimal, extend_chars, extend_str, join, join_chars, push_decimal, slice_of,
    string_of, strs, views,
};
use crate::tribunal::angry_master::record_views;

verus! {

/// The Narrative Agent actor records the verdict and creates a narrative summary.
pub struct NarrativeAgent;

/// At most the first `n` characters of `s` (`s.chars().take(n)`).
pub open spec fn prefix(s: Seq<char>, n: nat) -> Seq<char> {
    if s.len() <= n {
        s
    } else {
        s.take(n as int)
    }
}

/// One line per hypothesis, numbered from 1, cut to 50 characters.
pub open spec fn hypothesis_lines(h: Seq<Seq<char>>) -> Seq<Seq<char>>
    decreases h.len(),
{
    if h.len() == 0 {
        seq![]
    } else {
        hypothesis_lines(h.drop_last()).push(
            "  Hypothesis "@ + decimal(h.len()) + ": "@ + prefix(h.last(), 50) + "..."@,
        )
    }
}

/// One line per rejection, numbered from 1: the patch cut to 30 characters
/// and the reason.
pub open spec fn rejection_lines(r: Seq<(Seq<char>, Seq<char>)>) -> Seq<Seq<char>>
    decreases r.len(),
{
    if r.len() == 0 {
        seq![]
    } else {
        rejection_lines(r.drop_last()).push(
            "  Rejection "@ + decimal(r.len()) + ": "@ + prefix(r.last().0, 30) + " (reason: "@
                + r.last().1 + ")"@,
        )
    }
}

/// The closing lines: what became of the final code under the verdict.
pub open spec fn verdict_lines(code: Option<Seq<char>>, verdict: bool) -> Seq<Seq<char>> {
    match code {
        Some(c) => if verdict {
            seq![
                "Angry Master approved the final repair."@,
                "Final repaired code ("@ + decimal(byte_len(c)) + " chars): "@ + prefix(c, 50)
                    + "..."@,
            ]
        } else {
            seq!["Angry Master found code but tribunal vetoed the repair."@]
        },
        None => if verdict {
            seq!["Inconsistent state: verdict true but no code produced."@]
        } else {
            seq!["Angry Master found no viable repair after tribunal review."@]
        },
    }
}

/// The heading of the hypotheses.
pub open spec fn hypotheses_heading(n: nat) -> Seq<char> {
    "Wild Monkey generated "@ + decimal(n) + " hypotheses:"@
}

/// The heading of the rejections.
pub open spec fn rejections_heading(n: nat) -> Seq<char> {
    "Neutral Judge rejected "@ + decimal(n) + " patches:"@
}

/// No line is empty or starts with `c`.
pub open spec fn none_starts_with(ls: Seq<Seq<char>>, c: char) -> bool {
    forall|i: int| 0 <= i < ls.len() ==> (#[trigger] ls[i]).len() > 0 && ls[i][0] != c
}

proof fn lemma_none_starts_concat(a: Seq<Seq<char>>, b: Seq<Seq<char>>, c: char)
    requires
        none_starts_with(a, c),
        none_starts_with(b, c),
    ensures
        none_starts_with(a + b, c),
{
    assert forall|i: int| 0 <= i < (a + b).len() implies (#[trigger] (a + b)[i]).len() > 0 && (a + b)[i][0] != c by {
        if i < a.len() {
            assert((a + b)[i] == a[i]);
        } else {
            assert((a + b)[i] == b[i - a.len()]);
        }
    }
}

proof fn lemma_hypothesis_lines_indented(h: Seq<Seq<char>>)
    ensures
        none_starts_with(hypothesis_lines(h), 'W'),
        none_starts_with(hypothesis_lines(h), 'N'),
    decreases h.len(),
{
    reveal_strlit("  Hypothesis ");
    if h.len() > 0 {
        lemma_hypothesis_lines_indented(h.drop_last());
        let l = "  Hypothesis "@ + decimal(h.len()) + ": "@ + prefix(h.last(), 50) + "..."@;
        assert(l[0] == ' ');
        lemma_none_starts_concat(hypothesis_lines(h.drop_last()), seq![l], 'W');
        lemma_none_starts_concat(hypothesis_lines(h.drop_last()), seq![l], 'N');
        assert(hypothesis_lines(h.drop_last()).push(l) =~= hypothesis_lines(h.drop_last()) + seq![l]);
    }
}

proof fn lemma_rejection_lines_indented(r: Seq<(Seq<char>, Seq<char>)>)
    ensures
        none_starts_with(rejection_lines(r), 'W'),
        none_starts_with(rejection_lines(r), 'N'),
    decreases r.len(),
{
    reveal_strlit("  Rejection ");
    if r.len() > 0 {
        lemma_rejection_lines_indented(r.drop_last());
        let l = "  Rejection "@ + decimal(r.len()) + ": "@ + prefix(r.last().0, 30) + " (reason: "@
            + r.last().1 + ")"@;
        assert(l[0] == ' ');
        lemma_none_starts_concat(rejection_lines(r.drop_last()), seq![l], 'W');
        lemma_none_starts_concat(rejection_lines(r.drop_last()), seq![l], 'N');
        assert(rejection_lines(r.drop_last()).push(l) =~= rejection_lines(r.drop_last()) + seq![l]);
    }
}

/// The lines of an account: the trigger's line is always there; the
/// hypotheses' heading is there exactly when there are hypotheses, and the
/// rejections' exactly when there are rejections; and the closing line
/// follows from the final code and the verdict.
pub proof fn lemma_narrative_lines(
    hypotheses: Seq<Seq<char>>,
    rejected: Seq<(Seq<char>, Seq<char>)>,
    code: Option<Seq<char>>,
    verdict: bool,
    trigger: Seq<char>,
    started: u64,
)
    ensures
        ({
            let ls = narrative_lines(hypotheses, rejected, code, verdict, trigger, started);
            &&& ls.contains("Telemetry trigger: "@ + trigger)
            &&& (ls.contains(hypotheses_heading(hypotheses.len())) <==> hypotheses.len() > 0)
            &&& (ls.contains(rejections_heading(rejected.len())) <==> rejected.len() > 0)
            &&& (code is Some && verdict ==> ls.contains("Angry Master approved the final repair."@))
            &&& (code is Some && !verdict ==> ls.contains(
                "Angry Master found code but tribunal vetoed the repair."@,
            ))
            &&& (code is None && verdict ==> ls.contains(
                "Inconsistent state: verdict true but no code produced."@,
            ))
            &&& (code is None && !verdict ==> ls.contains(
                "Angry Master found no viable repair after tribunal review."@,
            ))
        }),
{
    reveal_strlit("Tribunal proceedings initiated at ");
    reveal_strlit("Telemetry trigger: ");
    reveal_strlit("Wild Monkey generated ");
    reveal_strlit("Neutral Judge rejected ");
    reveal_strlit("Angry Master approved the final repair.");
    reveal_strlit("Final repaired code (");
    reveal_strlit("Angry Master found code but tribunal vetoed the repair.");
    reveal_strlit("Inconsistent state: verdict true but no code produced.");
    reveal_strlit("Angry Master found no viable repair after tribunal review.");
    let head = seq![
        "Tribunal proceedings initiated at "@ + decimal(started as nat),
        "Telemetry trigger: "@ + trigger,
    ];
    let hp = if hypotheses.len() > 0 {
        seq![hypotheses_heading(hypotheses.len())] + hypothesis_lines(hypotheses)
    } else {
        seq![]
    };
    let rp = if rejected.len() > 0 {
        seq![rejections_heading(rejected.len())] + rejection_lines(rejected)
    } else {
        seq![]
    };
    let vl = verdict_lines(code, verdict);
    let ls = narrative_lines(hypotheses, rejected, code, verdict, trigger, started);
    assert(ls == head + hp + rp + vl);
    assert(ls[1] == "Telemetry trigger: "@ + trigger);
    lemma_hypothesis_lines_indented(hypotheses);
    lemma_rejection_lines_indented(rejected);
    assert(none_starts_with(head, 'W') && none_starts_with(head, 'N'));
    assert(none_starts_with(vl, 'W') && none_starts_with(vl, 'N'));
    assert(hypotheses_heading(hypotheses.len())[0] == 'W');
    assert(rejections_heading(rejected.len())[0] == 'N');
    if hypotheses.len() > 0 {
        assert(ls[2] == hypotheses_heading(hypotheses.len()));
        lemma_none_starts_concat(head, hp, 'N');
    } else {
        assert(hp =~= Seq::<Seq<char>>::empty());
        lemma_none_starts_concat(head, hp, 'W');
        lemma_none_starts_concat(head + hp, rp, 'W');
        if rejected.len() > 0 {
            lemma_none_starts_concat(seq![rejections_heading(rejected.len())], rejection_lines(rejected), 'W');
        }
        lemma_none_starts_concat(head + hp + rp, vl, 'W');
    }
    if rejected.len() > 0 {
        assert(ls[(head.len() + hp.len()) as int] == rejections_heading(rejected.len()));
    } else {
        assert(rp =~= Seq::<Seq<char>>::empty());
        if hypotheses.len() > 0 {
            lemma_none_starts_concat(seq![hypotheses_heading(hypotheses.len())], hypothesis_lines(hypotheses), 'N');
        }
        lemma_none_starts_concat(head, hp, 'N');
        lemma_none_starts_concat(head + hp, rp, 'N');
        lemma_none_starts_concat(head + hp + rp, vl, 'N');
    }
    let k = (head.len() + hp.len() + rp.len()) as int;
    assert(ls[k] == vl[0]);
}

/// The lines of the account of a tribunal that began at `started`.
pub open spec fn narrative_lines(
    hypotheses: Seq<Seq<char>>,
    rejected: Seq<(Seq<char>, Seq<char>)>,
    code: Option<Seq<char>>,
    verdict: bool,
    trigger: Seq<char>,
    started: u64,
) -> Seq<Seq<char>> {
    seq![
        "Tribunal proceedings initiated at "@ + decimal(started as nat),
        "Telemetry trigger: "@ + trigger,
    ] + (if hypotheses.len() > 0 {
        seq![hypotheses_heading(hypotheses.len())] + hypothesis_lines(hypotheses)
    } else {
        seq![]
    }) + (if rejected.len() > 0 {
        seq![rejections_heading(rejected.len())] + rejection_lines(rejected)
    } else {
        seq![]
    }) + verdict_lines(code, verdict)
}

/// The account of the tribunal on a genome, one line after another.
pub open spec fn narrative(g: RepairGenome, verdict: bool, trigger: Seq<char>, started: u64) -> Seq<char> {
    join(
        narrative_lines(
            strs(g.monkey_hypotheses@),
            record_views(g.rejected_patches@),
            opt_view(g.final_repaired_code),
            verdict,
            trigger,
            started,
        ),
        "\n"@,
    )
}

fn prefix_exec(s: &str, n: usize) -> (r: Vec<char>)
    ensures
        r@ == prefix(s@, n as nat),
{
    let c = chars_of(s);
    if c.len() <= n {
        c
    } else {
        let r = slice_of(c.as_slice(), 0, n);
        assert(r@ =~= c@.take(n as int));
        r
    }
}

fn push_line(lines: &mut Vec<Vec<char>>, line: Vec<char>)
    ensures
        views(final(lines)@) == views(old(lines)@).push(line@),
{
    lines.push(line);
    assert(views(lines@) =~= views(old(lines)@).push(line@));
}

/// The account of the tribunal on `genome` under `verdict`, for the given
/// trigger, as begun at `started` (seconds since the Unix epoch).
pub fn narrative_summary(genome: &RepairGenome, verdict: bool, telemetry_trigger: &str, started: u64) -> (s: String)
    ensures
        s@ == narrative(*genome, verdict, telemetry_trigger@, started),
{
    let ghost hyps = strs(genome.monkey_hypotheses@);
    let ghost rej = record_views(genome.rejected_patches@);
    let mut lines: Vec<Vec<char>> = Vec::new();
    let mut l: Vec<char> = Vec::new();
    extend_str(&mut l, "Tribunal proceedings initiated at ");
    push_decimal(&mut l, started);
    push_line(&mut lines, l);
    let mut l: Vec<char> = Vec::new();
    extend_str(&mut l, "Telemetry trigger: ");
    extend_str(&mut l, telemetry_trigger);
    push_line(&mut lines, l);
    let ghost head = views(lines@);
    let n = genome.monkey_hypotheses.len();
    if n > 0 {
        let mut l: Vec<char> = Vec::new();
        extend_str(&mut l, "Wild Monkey generated ");
        push_decimal(&mut l, n as u64);
        extend_str(&mut l, " hypotheses:");
        push_line(&mut lines, l);
        let ghost base = views(lines@);
        let mut i: usize = 0;
        while i < n
            invariant
                n == genome.monkey_hypotheses@.len(),
                hyps == strs(genome.monkey_hypotheses@),
                i <= n,
                views(lines@) == base + hypothesis_lines(hyps.take(i as int)),
            decreases n - i,
        {
            assert(hyps.take(i + 1).drop_last() =~= hyps.take(i as int));
            let mut l: Vec<char> = Vec::new();
            extend_str(&mut l, "  Hypothesis ");
            push_decimal(&mut l, (i + 1) as u64);
            extend_str(&mut l, ": ");
            let p = prefix_exec(genome.monkey_hypotheses[i].as_str(), 50);
            extend_chars(&mut l, p.as_slice());
            extend_str(&mut l, "...");
            push_line(&mut lines, l);
            i = i + 1;
        }
        assert(hyps.take(n as int) =~= hyps);
    }
    let ghost mid = views(lines@);
    assert(mid == head + (if hyps.len() > 0 {
        seq!["Wild Monkey generated "@ + decimal(hyps.len()) + " hypotheses:"@] + hypothesis_lines(hyps)
    } else {
        seq![]
    }));
    let m = genome.rejected_patches.len();
    if m > 0 {
        let mut l: Vec<char> = Vec::new();
        extend_str(&mut l, "Neutral Judge rejected ");
        push_decimal(&mut l, m as u64);
        extend_str(&mut l, " patches:");
        push_line(&mut lines, l);
        let ghost base = views(lines@);
        let mut i: usize = 0;
        while i < m
            invariant
                m == genome.rejected_patches@.len(),
                rej == record_views(genome.rejected_patches@),
                i <= m,
                views(lines@) == base + rejection_lines(rej.take(i as int)),
            decreases m - i,
        {
            assert(rej.take(i + 1).drop_last() =~= rej.take(i as int));
            let rec: &RejectionRecord = &genome.rejected_patches[i];
            let mut l: Vec<char> = Vec::new();
            extend_str(&mut l, "  Rejection ");
            push_decimal(&mut l, (i + 1) as u64);
            extend_str(&mut l, ": ");
            let p = prefix_exec(rec.patch.as_str(), 30);
            extend_chars(&mut l, p.as_slice());
            extend_str(&mut l, " (reason: ");
            extend_str(&mut l, rec.reason.as_str());
            extend_str(&mut l, ")");
            push_line(&mut lines, l);
            i = i + 1;
        }
        assert(rej.take(m as int) =~= rej);
    }
    let ghost tail = views(lines@);
    assert(tail == mid + (if rej.len() > 0 {
        seq!["Neutral Judge rejected "@ + decimal(rej.len()) + " patches:"@] + rejection_lines(rej)
    } else {
        seq![]
    }));
    match &genome.final_repaired_code {
        Some(code) => {
            if verdict {
                push_line(&mut lines, chars_of("Angry Master approved the final repair."));
                let mut l: Vec<char> = Vec::new();
                extend_str(&mut l, "Final repaired code (");
                push_decimal(&mut l, code.as_str().len() as u64);
                extend_str(&mut l, " chars): ");
                let p = prefix_exec(code.as_str(), 50);
                extend_chars(&mut l, p.as_slice());
                extend_str(&mut l, "...");
                push_line(&mut lines, l);
            } else {
                push_line(&mut lines, chars_of("Angry Master found code but tribunal vetoed the repair."));
            }
        },
        None => {
            if verdict {
                push_line(&mut lines, chars_of("Inconsistent state: verdict true but no code produced."));
            } else {
                push_line(&mut lines, chars_of("Angry Master found no viable repair after tribunal review."));
            }
        },
    }
    assert(views(lines@) =~= narrative_lines(
        hyps,
        rej,
        opt_view(genome.final_repaired_code),
        verdict,
        telemetry_trigger@,
        started,
    ));
    let nl = chars_of("\n");
    let out = join_chars(&lines, nl.as_slice());
    string_of(out.as_slice())
}

/// `g` is `g0` with the verdict recorded: a genome without a trigger takes
/// this one; the summary becomes the tribunal's account, dated `started`; the
/// timestamp becomes `now`. No other field changes.
pub open spec fn verdict_recorded(
    g0: RepairGenome,
    g: RepairGenome,
    verdict: bool,
    telemetry_trigger: Seq<char>,
    started: u64,
    now: u64,
) -> bool {
    &&& opt_view(g.telemetry_trigger) == (match g0.telemetry_trigger {
        Some(t) => Some(t@),
        None => Some(telemetry_trigger),
    })
    &&& opt_view(g.narrative_summary) == Some(narrative(g0, verdict, telemetry_trigger, started))
    &&& g.timestamp == now
    &&& g.hash@ == g0.hash@
    &&& g.original_code@ == g0.original_code@
    &&& strs(g.monkey_hypotheses@) == strs(g0.monkey_hypotheses@)
    &&& record_views(g.rejected_patches@) == record_views(g0.rejected_patches@)
    &&& g.rejected_patches@ == g0.rejected_patches@
    &&& opt_view(g.final_repaired_code) == opt_view(g0.final_repaired_code)
    &&& g.semantic_cluster == g0.semantic_cluster
    &&& opt_view(g.wing) == opt_view(g0.wing)
    &&& g.aaak_compressed == g0.aaak_compressed
    &&& g.dependency_density == g0.dependency_density
    &&& g.ast_topology_hash == g0.ast_topology_hash
}

impl NarrativeAgent {
    /// Records the verdict. A genome without a trigger takes this one; the
    /// summary becomes the tribunal's account, dated by the clock; the
    /// timestamp is refreshed from the clock. No other field changes.
    pub fn record_verdict(&self, genome: &mut RepairGenome, verdict: bool, telemetry_trigger: &str) -> (r: Result<(), HephaestusError>)
        ensures
            r is Ok,
            exists|started: u64, now: u64|
                verdict_recorded(*old(genome), *final(genome), verdict, telemetry_trigger@, started, now),
            opt_view(final(genome).telemetry_trigger) == (match old(genome).telemetry_trigger {
                Some(t) => Some(t@),
                None => Some(telemetry_trigger@),
            }),
            exists|started: u64|
                opt_view(final(genome).narrative_summary) == Some(
                    narrative(*old(genome), verdict, telemetry_trigger@, started),
                ),
            final(genome).hash@ == old(genome).hash@,
            final(genome).original_code@ == old(genome).original_code@,
            strs(final(genome).monkey_hypotheses@) == strs(old(genome).monkey_hypotheses@),
            record_views(final(genome).rejected_patches@) == record_views(
                old(genome).rejected_patches@,
            ),
            final(genome).rejected_patches@ == old(genome).rejected_patches@,
            opt_view(final(genome).final_repaired_code) == opt_view(old(genome).final_repaired_code),
            final(genome).semantic_cluster == old(genome).semantic_cluster,
            opt_view(final(genome).wing) == opt_view(old(genome).wing),
            final(genome).aaak_compressed == old(genome).aaak_compressed,
            final(genome).dependency_density == old(genome).dependency_density,
            final(genome).ast_topology_hash == old(genome).ast_topology_hash,
    {
        let started = unix_time_secs();
        let now = unix_time_secs();
        self.record_verdict_at(genome, verdict, telemetry_trigger, started, now);
        Ok(())
    }

    /// Records the verdict as `record_verdict` does, with the clock's
    /// readings given: `started` dates the summary, `now` is the timestamp.
    pub fn record_verdict_at(
        &self,
        genome: &mut RepairGenome,
        verdict: bool,
        telemetry_trigger: &str,
        started: u64,
        now: u64,
    )
        ensures
            verdict_recorded(*old(genome), *final(genome), verdict, telemetry_trigger@, started, now),
    {
        if genome.telemetry_trigger.is_none() {
            genome.telemetry_trigger = Some(owned(telemetry_trigger));
        }
        let summary = narrative_summary(genome, verdict, telemetry_trigger, started);
        genome.narrative_summary = Some(summary);
        genome.timestamp = now;
    }
}

} // verus!
