//! The buffer compiler: an ordered stream of commands is cut into
//! clear-delimited segments, and each segment's draws are compressed into
//! maximal same-colour runs sorted by raster position. A compiled buffer
//! plays back as a sequence of terminal operations.

use vstd::prelude::*;
use crate::renderer::colours::Colour;
use crate::renderer::command::{Command, ClearInfo, DrawInfo, TermOp, clear_ops, push_clear_ops};
use crate::renderer::ansi::{op_encodable, ops_encodable, op_fits_wire};

verus! {

/// A violation of the compile-then-play contract.
#[derive(Clone, Copy, Debug, PartialEq, Eq, Structural)]
pub enum RenderError {
    /// A segment was played before it was compiled.
    NotCompiled,
}

/// The mathematical shape of one run: a colour, the members in raster
/// order, and the original-sequence position of the last member.
#[verifier::ext_equal]
pub ghost struct RunSpec {
    pub colour: Colour,
    pub members: Seq<DrawInfo>,
    pub end: int,
}

/// The mathematical shape of one segment: its original-order commands, its
/// compiled runs, its leading clear, and whether it has been compiled.
#[verifier::ext_equal]
pub ghost struct SegModel {
    pub cmds: Seq<Command>,
    pub runs: Seq<RunSpec>,
    pub clear: Option<ClearInfo>,
    pub ready: bool,
}

/// The raster index of a draw: its column plus its row times the width.
pub open spec fn raster_index(d: DrawInfo, width: int) -> int {
    d.draw_pos_x + d.draw_pos_y * width
}

/// The widest column drawn to, and zero when nothing is drawn: the working
/// row width of the raster encoding.
pub open spec fn max_draw_x(cmds: Seq<Command>) -> int
    decreases cmds.len(),
{
    if cmds.len() == 0 {
        0
    } else {
        let rest = max_draw_x(cmds.drop_last());
        match cmds.last() {
            Command::Draw(d) => if d.draw_pos_x > rest {
                d.draw_pos_x as int
            } else {
                rest
            },
            _ => rest,
        }
    }
}

/// The draws of `cmds` in order, each paired with its position in `cmds`.
pub open spec fn indexed_draws(cmds: Seq<Command>) -> Seq<(DrawInfo, int)>
    decreases cmds.len(),
{
    if cmds.len() == 0 {
        Seq::empty()
    } else {
        let prefix = indexed_draws(cmds.drop_last());
        match cmds.last() {
            Command::Draw(d) => prefix.push((d, cmds.len() - 1)),
            _ => prefix,
        }
    }
}

/// The sort order of the compile pass: raster index first, original
/// position as the tie-break, so that sorting is stable.
pub open spec fn key_le(a: (DrawInfo, int), b: (DrawInfo, int), width: int) -> bool {
    raster_index(a.0, width) < raster_index(b.0, width) || (raster_index(a.0, width)
        == raster_index(b.0, width) && a.1 <= b.1)
}

/// `p` placed at its sorted position in the already sorted `s`.
pub open spec fn insert_sorted(s: Seq<(DrawInfo, int)>, p: (DrawInfo, int), width: int) -> Seq<
    (DrawInfo, int),
>
    decreases s.len(),
{
    if s.len() == 0 {
        seq![p]
    } else if key_le(s.last(), p, width) {
        s.push(p)
    } else {
        insert_sorted(s.drop_last(), p, width).push(s.last())
    }
}

/// `s` sorted by `key_le`: one insertion per element, in order.
pub open spec fn sort_draws(s: Seq<(DrawInfo, int)>, width: int) -> Seq<(DrawInfo, int)>
    decreases s.len(),
{
    if s.len() == 0 {
        s
    } else {
        insert_sorted(sort_draws(s.drop_last(), width), s.last(), width)
    }
}

/// One step of run compression: the draw joins the last run when the colour
/// is unchanged, else it opens a new run.
pub open spec fn push_draw(runs: Seq<RunSpec>, p: (DrawInfo, int)) -> Seq<RunSpec> {
    if runs.len() > 0 && runs.last().colour == p.0.colour {
        runs.update(
            runs.len() - 1,
            RunSpec {
                colour: runs.last().colour,
                members: runs.last().members.push(p.0),
                end: p.1,
            },
        )
    } else {
        runs.push(RunSpec { colour: p.0.colour, members: seq![p.0], end: p.1 })
    }
}

/// The maximal same-colour runs of the sorted draw sequence `s`.
pub open spec fn group_runs(s: Seq<(DrawInfo, int)>) -> Seq<RunSpec>
    decreases s.len(),
{
    if s.len() == 0 {
        Seq::empty()
    } else {
        push_draw(group_runs(s.drop_last()), s.last())
    }
}

/// What compiling a segment with commands `cmds` produces: its draws,
/// stably sorted by raster index at the observed width, cut into maximal
/// same-colour runs.
pub open spec fn compiled_runs(cmds: Seq<Command>) -> Seq<RunSpec> {
    group_runs(sort_draws(indexed_draws(cmds), max_draw_x(cmds)))
}

/// A maximal group of draws sharing one colour, ordered by raster index.
/// Within a run all draws share exactly one colour; across adjacent runs in
/// a segment the colours differ.
#[derive(Debug)]
pub struct ConsecutiveBuffer {
    /// The original-sequence position of the run's last member.
    pub end: usize,
    /// The one colour every member is drawn with.
    pub colour: Colour,
    /// The members, in raster order.
    pub draw_commands: Vec<DrawInfo>,
}

impl ConsecutiveBuffer {
    pub open spec fn model(&self) -> RunSpec {
        RunSpec { colour: self.colour, members: self.draw_commands@, end: self.end as int }
    }
}

/// The models of a list of runs.
pub open spec fn runs_model(s: Seq<ConsecutiveBuffer>) -> Seq<RunSpec> {
    s.map_values(|cb: ConsecutiveBuffer| cb.model())
}

/// The view of the draw pairs the compile pass works on.
pub open spec fn pair_model(p: (DrawInfo, usize)) -> (DrawInfo, int) {
    (p.0, p.1 as int)
}

pub open spec fn pairs_model(s: Seq<(DrawInfo, usize)>) -> Seq<(DrawInfo, int)> {
    s.map_values(|p: (DrawInfo, usize)| pair_model(p))
}

/// Each member of `ms` paired with its position in `ms`.
pub open spec fn with_indices(ms: Seq<DrawInfo>) -> Seq<(DrawInfo, int)> {
    Seq::new(ms.len(), |i: int| (ms[i], i))
}

/// Whether `key_le(a, b)` holds, computed on machine integers.
fn key_le_exec(a: &(DrawInfo, usize), b: &(DrawInfo, usize), width: u16) -> (r: bool)
    ensures
        r == key_le(pair_model(*a), pair_model(*b), width as int),
{
    proof {
        assert((a.0.draw_pos_y as u64) * (width as u64) <= 65535u64 * 65535u64)
            by (nonlinear_arith)
            requires
                a.0.draw_pos_y <= 65535,
                width <= 65535,
        ;
        assert((b.0.draw_pos_y as u64) * (width as u64) <= 65535u64 * 65535u64)
            by (nonlinear_arith)
            requires
                b.0.draw_pos_y <= 65535,
                width <= 65535,
        ;
    }
    let ra: u64 = a.0.draw_pos_x as u64 + a.0.draw_pos_y as u64 * width as u64;
    let rb: u64 = b.0.draw_pos_x as u64 + b.0.draw_pos_y as u64 * width as u64;
    ra < rb || (ra == rb && a.1 <= b.1)
}

/// Place `p` at its sorted position in the already sorted `out`.
fn insert_pair(out: &mut Vec<(DrawInfo, usize)>, p: (DrawInfo, usize), width: u16)
    ensures
        pairs_model(final(out)@) == insert_sorted(pairs_model(old(out)@), pair_model(p), width as int),
{
    let ghost s = pairs_model(old(out)@);
    let ghost pm = pair_model(p);
    let ghost w = width as int;
    let mut j: usize = out.len();
    proof {
        assert(s.take(j as int) =~= s);
        assert(s.skip(j as int) =~= Seq::empty());
        assert(insert_sorted(s.take(j as int), pm, w) + s.skip(j as int) =~= insert_sorted(s, pm, w));
    }
    while j > 0 && !key_le_exec(&out[j - 1], &p, width)
        invariant
            j <= out.len(),
            out@ == old(out)@,
            s == pairs_model(out@),
            pm == pair_model(p),
            w == width as int,
            insert_sorted(s, pm, w) == insert_sorted(s.take(j as int), pm, w) + s.skip(j as int),
            j < out.len() ==> !key_le(s[j as int], pm, w),
        decreases j,
    {
        proof {
            let t = s.take(j as int);
            assert(t.last() == s[j as int - 1]);
            assert(t.drop_last() =~= s.take(j as int - 1));
            assert(insert_sorted(t, pm, w) == insert_sorted(s.take(j as int - 1), pm, w).push(
                s[j as int - 1],
            ));
            assert(insert_sorted(s.take(j as int - 1), pm, w).push(s[j as int - 1]) + s.skip(
                j as int,
            ) =~= insert_sorted(s.take(j as int - 1), pm, w) + s.skip(j as int - 1));
        }
        j = j - 1;
    }
    proof {
        let t = s.take(j as int);
        if j == 0 {
            assert(t =~= Seq::empty());
            assert(insert_sorted(t, pm, w) == seq![pm]);
            assert(t.push(pm) =~= seq![pm]);
        } else {
            assert(t.last() == s[j as int - 1]);
            assert(key_le(s[j as int - 1], pm, w));
            assert(insert_sorted(t, pm, w) == t.push(pm));
        }
    }
    out.insert(j, p);
    proof {
        assert(pairs_model(out@) =~= s.take(j as int).push(pm) + s.skip(j as int));
    }
}

/// `v` sorted by raster index, original position breaking ties.
fn sort_pairs(v: Vec<(DrawInfo, usize)>, width: u16) -> (r: Vec<(DrawInfo, usize)>)
    ensures
        pairs_model(r@) == sort_draws(pairs_model(v@), width as int),
{
    let ghost s = pairs_model(v@);
    let ghost w = width as int;
    let mut out: Vec<(DrawInfo, usize)> = Vec::new();
    let mut i: usize = 0;
    proof {
        assert(s.take(0) =~= Seq::empty());
        assert(pairs_model(out@) =~= Seq::empty());
    }
    while i < v.len()
        invariant
            i <= v.len(),
            s == pairs_model(v@),
            w == width as int,
            pairs_model(out@) == sort_draws(s.take(i as int), w),
        decreases v.len() - i,
    {
        insert_pair(&mut out, v[i], width);
        proof {
            let t = s.take(i as int + 1);
            assert(t.drop_last() =~= s.take(i as int));
            assert(t.last() == pair_model(v@[i as int]));
            assert(sort_draws(t, w) == insert_sorted(sort_draws(s.take(i as int), w), t.last(), w));
        }
        i = i + 1;
    }
    proof {
        assert(s.take(v@.len() as int) =~= s);
    }
    out
}

impl ConsecutiveBuffer {
    /// Sort the run's members by raster index at the given row width,
    /// keeping the relative order of members with equal raster index. The
    /// compile pass already produces members in this order, so there this is
    /// a no-op; it keeps runs independently sortable when built another way.
    pub fn prepare(&mut self, width: u16)
        ensures
            final(self).colour == old(self).colour,
            final(self).end == old(self).end,
            final(self).draw_commands@ == sort_draws(
                with_indices(old(self).draw_commands@),
                width as int,
            ).map_values(|p: (DrawInfo, int)| p.0),
    {
        let ghost ms = self.draw_commands@;
        let mut pairs: Vec<(DrawInfo, usize)> = Vec::new();
        let mut i: usize = 0;
        proof {
            assert(pairs_model(pairs@) =~= with_indices(ms).take(0));
        }
        while i < self.draw_commands.len()
            invariant
                i <= self.draw_commands.len(),
                ms == self.draw_commands@,
                pairs_model(pairs@) == with_indices(ms).take(i as int),
            decreases self.draw_commands.len() - i,
        {
            let d = self.draw_commands[i];
            let ghost before = pairs@;
            pairs.push((d, i));
            proof {
                assert(pairs_model(pairs@) =~= pairs_model(before).push(pair_model((d, i))));
                assert(with_indices(ms).take(i as int + 1) =~= with_indices(ms).take(i as int).push(
                    (ms[i as int], i as int),
                ));
            }
            i = i + 1;
        }
        proof {
            assert(with_indices(ms).take(ms.len() as int) =~= with_indices(ms));
        }
        let sorted = sort_pairs(pairs, width);
        let ghost target = sort_draws(with_indices(ms), width as int);
        let mut members: Vec<DrawInfo> = Vec::new();
        let mut j: usize = 0;
        proof {
            assert(members@ =~= target.map_values(|p: (DrawInfo, int)| p.0).take(0));
        }
        while j < sorted.len()
            invariant
                j <= sorted.len(),
                pairs_model(sorted@) == target,
                members@ == target.map_values(|p: (DrawInfo, int)| p.0).take(j as int),
            decreases sorted.len() - j,
        {
            members.push(sorted[j].0);
            proof {
                assert(members@ =~= target.map_values(|p: (DrawInfo, int)| p.0).take(j as int + 1));
            }
            j = j + 1;
        }
        proof {
            let stripped = target.map_values(|p: (DrawInfo, int)| p.0);
            assert(stripped.take(sorted@.len() as int) =~= stripped);
        }
        self.draw_commands = members;
    }
}

/// A draw buffer ("segment") is a set of commands led by at most one clear
/// command. Ordering of the draws happens at compile time, when the draws
/// are compressed into consecutive same-colour runs.
#[derive(Debug)]
pub struct DrawBuffer {
    /// The commands as submitted, in order, without the leading clear.
    pub draw_commands: Vec<Command>,
    /// The compiled runs; empty until the segment is compiled.
    pub consecutive_buffers: Vec<ConsecutiveBuffer>,
    /// The clear that opens the segment, if one does.
    pub clear_command: Option<ClearInfo>,
    /// Whether the segment has been compiled. Only a compiled segment may be
    /// played.
    pub ready: bool,
}

impl DrawBuffer {
    pub open spec fn model(&self) -> SegModel {
        SegModel {
            cmds: self.draw_commands@,
            runs: runs_model(self.consecutive_buffers@),
            clear: self.clear_command,
            ready: self.ready,
        }
    }

    /// A fresh, uncompiled segment with no commands and no clear.
    pub fn new() -> (r: DrawBuffer)
        ensures
            r.draw_commands@ == Seq::<Command>::empty(),
            r.consecutive_buffers@ == Seq::<ConsecutiveBuffer>::empty(),
            r.clear_command is None,
            !r.ready,
    {
        DrawBuffer {
            draw_commands: Vec::new(),
            consecutive_buffers: Vec::new(),
            clear_command: None,
            ready: false,
        }
    }

    /// Compile the segment: gather its draws, stably sort them by raster
    /// index at the widest observed column, and cut the sorted sequence into
    /// maximal same-colour runs. A segment that is already compiled is left
    /// as it is; a segment with no draws compiles to no runs.
    pub fn prepare(&mut self)
        ensures
            final(self).ready,
            final(self).draw_commands@ == old(self).draw_commands@,
            final(self).clear_command == old(self).clear_command,
            old(self).ready ==> final(self).consecutive_buffers@ == old(
                self,
            ).consecutive_buffers@,
            !old(self).ready ==> runs_model(final(self).consecutive_buffers@) == runs_model(
                old(self).consecutive_buffers@,
            ) + compiled_runs(old(self).draw_commands@),
    {
        if self.ready {
            return ;
        }
        let ghost cmds = self.draw_commands@;
        // Gather the draws with their original positions, and the working
        // row width: the widest column drawn to.
        let mut pairs: Vec<(DrawInfo, usize)> = Vec::new();
        let mut max_width: u16 = 0;
        let mut i: usize = 0;
        proof {
            assert(pairs_model(pairs@) =~= indexed_draws(cmds.take(0)));
            assert(cmds.take(0) =~= Seq::empty());
        }
        while i < self.draw_commands.len()
            invariant
                i <= self.draw_commands.len(),
                cmds == self.draw_commands@,
                pairs_model(pairs@) == indexed_draws(cmds.take(i as int)),
                max_width as int == max_draw_x(cmds.take(i as int)),
            decreases self.draw_commands.len() - i,
        {
            proof {
                assert(cmds.take(i as int + 1).drop_last() =~= cmds.take(i as int));
                assert(cmds.take(i as int + 1).last() == cmds[i as int]);
            }
            match self.draw_commands[i] {
                Command::Draw(d) => {
                    if d.draw_pos_x > max_width {
                        max_width = d.draw_pos_x;
                    }
                    let ghost before = pairs@;
                    pairs.push((d, i));
                    proof {
                        assert(pairs_model(pairs@) =~= pairs_model(before).push(
                            pair_model((d, i)),
                        ));
                    }
                },
                _ => {},
            }
            i = i + 1;
        }
        proof {
            assert(cmds.take(cmds.len() as int) =~= cmds);
        }
        if pairs.len() == 0 {
            proof {
                assert(indexed_draws(cmds) =~= Seq::empty());
                assert(runs_model(self.consecutive_buffers@) + compiled_runs(cmds) =~= runs_model(
                    self.consecutive_buffers@,
                ));
            }
            self.ready = true;
            return ;
        }
        // Stable sort by raster index, then walk the sorted draws, starting
        // a new run whenever the colour changes.
        let sorted = sort_pairs(pairs, max_width);
        let ghost sm = sort_draws(indexed_draws(cmds), max_draw_x(cmds));
        let mut runs: Vec<ConsecutiveBuffer> = Vec::new();
        let mut j: usize = 0;
        proof {
            assert(sm.take(0) =~= Seq::empty());
            assert(runs_model(runs@) =~= group_runs(sm.take(0)));
        }
        while j < sorted.len()
            invariant
                j <= sorted.len(),
                pairs_model(sorted@) == sm,
                runs_model(runs@) == group_runs(sm.take(j as int)),
            decreases sorted.len() - j,
        {
            let (d, idx) = sorted[j];
            let n = runs.len();
            let ghost prev = runs_model(runs@);
            proof {
                assert(sm.take(j as int + 1).drop_last() =~= sm.take(j as int));
                assert(sm.take(j as int + 1).last() == pair_model(sorted@[j as int]));
            }
            if n > 0 && runs[n - 1].colour == d.colour {
                let mut last = runs.pop().unwrap();
                last.draw_commands.push(d);
                last.end = idx;
                runs.push(last);
                proof {
                    assert(runs_model(runs@) =~= push_draw(prev, pair_model(sorted@[j as int])));
                }
            } else {
                let run = ConsecutiveBuffer { end: idx, colour: d.colour, draw_commands: vec![d] };
                runs.push(run);
                proof {
                    assert(run.model().members =~= seq![d]);
                    assert(runs_model(runs@) =~= push_draw(prev, pair_model(sorted@[j as int])));
                }
            }
            j = j + 1;
        }
        proof {
            assert(sm.take(sorted@.len() as int) =~= sm);
        }
        let ghost base = self.consecutive_buffers@;
        self.consecutive_buffers.append(&mut runs);
        proof {
            assert(runs_model(self.consecutive_buffers@) =~= runs_model(base) + compiled_runs(
                cmds,
            ));
        }
        self.ready = true;
    }
}

/// How many `Draw` commands `cmds` holds.
pub open spec fn draw_count(cmds: Seq<Command>) -> int
    decreases cmds.len(),
{
    if cmds.len() == 0 {
        0
    } else {
        draw_count(cmds.drop_last()) + (if cmds.last() is Draw {
            1int
        } else {
            0int
        })
    }
}

/// The operations that paint the members of one run: a cursor move and a
/// print per member, in run order.
pub open spec fn member_ops(ms: Seq<DrawInfo>) -> Seq<TermOp>
    decreases ms.len(),
{
    if ms.len() == 0 {
        Seq::empty()
    } else {
        member_ops(ms.drop_last()) + seq![
            TermOp::MoveTo(ms.last().draw_pos_x, ms.last().draw_pos_y),
            TermOp::Print(ms.last().character),
        ]
    }
}

/// The operations that fire one run: set its colour once, then paint every
/// member.
pub open spec fn run_ops(r: RunSpec) -> Seq<TermOp> {
    seq![TermOp::SetForeground(r.colour)] + member_ops(r.members)
}

/// The operations of the original-order walk of a segment's command list:
/// each `Draw` fires the next not-yet-fired run (and is a no-op once all
/// runs have fired), a cursor move and a flush pass through, and a clear in
/// the list contributes nothing.
pub open spec fn body_ops(cmds: Seq<Command>, runs: Seq<RunSpec>) -> Seq<TermOp>
    decreases cmds.len(),
{
    if cmds.len() == 0 {
        Seq::empty()
    } else {
        let prefix = body_ops(cmds.drop_last(), runs);
        match cmds.last() {
            Command::Draw(_) => if draw_count(cmds.drop_last()) < runs.len() {
                prefix + run_ops(runs[draw_count(cmds.drop_last())])
            } else {
                prefix
            },
            Command::SetCursorPosition(x, y) => prefix.push(TermOp::MoveTo(x, y)),
            Command::Flush => prefix.push(TermOp::Flush),
            Command::Clear(_) => prefix,
        }
    }
}

/// The clear operations of a segment's leading clear, if it has one.
pub open spec fn clear_ops_opt(c: Option<ClearInfo>) -> Seq<TermOp> {
    match c {
        Some(ci) => clear_ops(ci),
        None => Seq::empty(),
    }
}

/// Everything a segment plays: its leading clear, then its original-order
/// walk.
pub open spec fn segment_ops(m: SegModel) -> Seq<TermOp> {
    clear_ops_opt(m.clear) + body_ops(m.cmds, m.runs)
}

/// Everything a buffer plays: its segments, in order.
pub open spec fn buffer_ops(segs: Seq<SegModel>) -> Seq<TermOp>
    decreases segs.len(),
{
    if segs.len() == 0 {
        Seq::empty()
    } else {
        buffer_ops(segs.drop_last()) + segment_ops(segs.last())
    }
}

impl DrawBuffer {
    /// Play the compiled segment, appending its operations to `out`. Playing
    /// a segment that was never compiled is a contract violation: nothing is
    /// appended and `NotCompiled` comes back.
    pub fn execute(&self, out: &mut Vec<TermOp>) -> (r: Result<(), RenderError>)
        ensures
            r is Ok <==> self.ready,
            self.ready ==> final(out)@ == old(out)@ + segment_ops(self.model()),
            !self.ready ==> r == Err::<(), RenderError>(RenderError::NotCompiled) && final(out)@
                == old(out)@,
    {
        if !self.ready {
            return Err(RenderError::NotCompiled);
        }
        let ghost cmds = self.draw_commands@;
        let ghost runs = runs_model(self.consecutive_buffers@);
        let ghost start = out@;
        if let Some(ci) = self.clear_command {
            push_clear_ops(out, ci);
        }
        proof {
            assert(cmds.take(0) =~= Seq::empty());
            assert(out@ =~= start + clear_ops_opt(self.clear_command) + body_ops(
                cmds.take(0),
                runs,
            ));
        }
        let mut fired: usize = 0;
        let mut i: usize = 0;
        while i < self.draw_commands.len()
            invariant
                i <= self.draw_commands.len(),
                cmds == self.draw_commands@,
                runs == runs_model(self.consecutive_buffers@),
                fired <= runs.len(),
                fired as int == if draw_count(cmds.take(i as int)) <= runs.len() {
                    draw_count(cmds.take(i as int))
                } else {
                    runs.len() as int
                },
                out@ == start + clear_ops_opt(self.clear_command) + body_ops(
                    cmds.take(i as int),
                    runs,
                ),
            decreases self.draw_commands.len() - i,
        {
            proof {
                assert(cmds.take(i as int + 1).drop_last() =~= cmds.take(i as int));
                assert(cmds.take(i as int + 1).last() == cmds[i as int]);
            }
            match self.draw_commands[i] {
                Command::Draw(_) => {
                    if fired < self.consecutive_buffers.len() {
                        let ghost at_cmd = out@;
                        let cb = &self.consecutive_buffers[fired];
                        out.push(TermOp::SetForeground(cb.colour));
                        let ghost at_run = out@;
                        let ghost ms = cb.draw_commands@;
                        proof {
                            assert(ms.take(0) =~= Seq::empty());
                            assert(at_run =~= at_cmd + seq![TermOp::SetForeground(cb.colour)]);
                        }
                        let mut k: usize = 0;
                        while k < cb.draw_commands.len()
                            invariant
                                k <= cb.draw_commands.len(),
                                ms == cb.draw_commands@,
                                out@ == at_run + member_ops(ms.take(k as int)),
                            decreases cb.draw_commands.len() - k,
                        {
                            proof {
                                assert(ms.take(k as int + 1).drop_last() =~= ms.take(k as int));
                                assert(ms.take(k as int + 1).last() == ms[k as int]);
                            }
                            let m = cb.draw_commands[k];
                            out.push(TermOp::MoveTo(m.draw_pos_x, m.draw_pos_y));
                            out.push(TermOp::Print(m.character));
                            proof {
                                assert(out@ =~= at_run + member_ops(ms.take(k as int)) + seq![
                                    TermOp::MoveTo(m.draw_pos_x, m.draw_pos_y),
                                    TermOp::Print(m.character),
                                ]);
                            }
                            k = k + 1;
                        }
                        proof {
                            assert(ms.take(ms.len() as int) =~= ms);
                            assert(runs[fired as int] == self.consecutive_buffers@[
                                fired as int
                            ].model());
                            assert(out@ =~= at_cmd + run_ops(runs[fired as int]));
                            assert(out@ =~= start + clear_ops_opt(self.clear_command) + (body_ops(
                                cmds.take(i as int),
                                runs,
                            ) + run_ops(runs[draw_count(cmds.take(i as int))])));
                        }
                        fired = fired + 1;
                    }
                },
                Command::SetCursorPosition(x, y) => {
                    out.push(TermOp::MoveTo(x, y));
                    proof {
                        assert(out@ =~= start + clear_ops_opt(self.clear_command) + body_ops(
                            cmds.take(i as int),
                            runs,
                        ).push(TermOp::MoveTo(x, y)));
                    }
                },
                Command::Flush => {
                    out.push(TermOp::Flush);
                    proof {
                        assert(out@ =~= start + clear_ops_opt(self.clear_command) + body_ops(
                            cmds.take(i as int),
                            runs,
                        ).push(TermOp::Flush));
                    }
                },
                Command::Clear(_) => {},
            }
            i = i + 1;
        }
        proof {
            assert(cmds.take(cmds.len() as int) =~= cmds);
            assert(out@ =~= start + segment_ops(self.model()));
        }
        Ok(())
    }
}

/// The models of a list of segments.
pub open spec fn bufs_model(s: Seq<DrawBuffer>) -> Seq<SegModel> {
    s.map_values(|db: DrawBuffer| db.model())
}

/// The position of the last segment that opens with a whole-surface clear,
/// and zero when no segment does.
pub open spec fn last_all_clear(segs: Seq<SegModel>) -> int
    decreases segs.len(),
{
    if segs.len() == 0 {
        0
    } else if segs.last().clear == Some(ClearInfo::All) {
        segs.len() - 1
    } else {
        last_all_clear(segs.drop_last())
    }
}

/// Drop every segment before the last whole-surface clear: their effects
/// would be erased anyway.
pub open spec fn prune_segments(segs: Seq<SegModel>) -> Seq<SegModel> {
    segs.skip(last_all_clear(segs))
}

/// What compiling does to one segment: an already compiled segment is left
/// alone, any other gets its runs computed and is marked ready.
pub open spec fn prepared_model(m: SegModel) -> SegModel {
    if m.ready {
        m
    } else {
        SegModel { cmds: m.cmds, runs: m.runs + compiled_runs(m.cmds), clear: m.clear, ready: true }
    }
}

/// A set of commands that will be executed at draw time to create images on
/// the terminal: one frame as an ordered list of compiled segments.
#[derive(Debug)]
pub struct CommandBuffer {
    pub draw_buffers: Vec<DrawBuffer>,
}

impl CommandBuffer {
    pub open spec fn model(&self) -> Seq<SegModel> {
        bufs_model(self.draw_buffers@)
    }

    /// Whether every segment of the buffer has been compiled.
    pub open spec fn all_ready(&self) -> bool {
        forall|i: int| 0 <= i < self.model().len() ==> self.model()[i].ready
    }

    /// An empty frame.
    pub fn new() -> (r: CommandBuffer)
        ensures
            r.model() == Seq::<SegModel>::empty(),
    {
        let r = CommandBuffer { draw_buffers: Vec::new() };
        proof {
            assert(r.model() =~= Seq::<SegModel>::empty());
        }
        r
    }

    /// Play the whole buffer: every segment's operations, in segment order.
    /// When any segment was never compiled, nothing plays and `NotCompiled`
    /// comes back.
    pub fn execute(&self) -> (r: Result<Vec<TermOp>, RenderError>)
        ensures
            r is Ok <==> self.all_ready(),
            self.all_ready() ==> (r matches Ok(ops) && ops@ == buffer_ops(self.model())),
            !self.all_ready() ==> r == Err::<Vec<TermOp>, RenderError>(RenderError::NotCompiled),
    {
        let mut i: usize = 0;
        while i < self.draw_buffers.len()
            invariant
                i <= self.draw_buffers.len(),
                forall|k: int| 0 <= k < i ==> self.model()[k].ready,
            decreases self.draw_buffers.len() - i,
        {
            if !self.draw_buffers[i].ready {
                proof {
                    assert(!self.model()[i as int].ready);
                }
                return Err(RenderError::NotCompiled);
            }
            i = i + 1;
        }
        let mut out: Vec<TermOp> = Vec::new();
        let ghost segs = self.model();
        proof {
            assert(out@ =~= buffer_ops(segs.take(0)));
        }
        let mut j: usize = 0;
        while j < self.draw_buffers.len()
            invariant
                j <= self.draw_buffers.len(),
                segs == self.model(),
                forall|k: int| 0 <= k < segs.len() ==> segs[k].ready,
                out@ == buffer_ops(segs.take(j as int)),
            decreases self.draw_buffers.len() - j,
        {
            proof {
                assert(segs.take(j as int + 1).drop_last() =~= segs.take(j as int));
                assert(segs.take(j as int + 1).last() == segs[j as int]);
            }
            let r = self.draw_buffers[j].execute(&mut out);
            proof {
                assert(r is Ok);
            }
            j = j + 1;
        }
        proof {
            assert(segs.take(segs.len() as int) =~= segs);
        }
        Ok(out)
    }

    /// Whether the buffer can go onto a presentation target: every segment
    /// is compiled and every operation the buffer plays fits the wire
    /// encoding (cursor positions go on the wire one-based, so the largest
    /// zero-based coordinate cannot be written).
    pub fn fits_wire(&self) -> (r: bool)
        ensures
            r == (self.all_ready() && ops_encodable(buffer_ops(self.model()))),
    {
        let ops = match self.execute() {
            Ok(ops) => ops,
            Err(_) => {
                return false;
            },
        };
        let mut i: usize = 0;
        while i < ops.len()
            invariant
                i <= ops@.len(),
                ops@ == buffer_ops(self.model()),
                forall|k: int| 0 <= k < i ==> op_encodable(#[trigger] ops@[k]),
            decreases ops@.len() - i,
        {
            if !op_fits_wire(&ops[i]) {
                proof {
                    assert(!op_encodable(ops@[i as int]));
                }
                return false;
            }
            i = i + 1;
        }
        true
    }

    /// Begin recording commands for this frame. The creator starts fresh:
    /// finishing it replaces whatever the buffer held before.
    pub fn add_commands(self) -> (r: CommandBufferCreator)
        ensures
            r.draw_buffers@ == Seq::<DrawBuffer>::empty(),
            r.working_draw_buffer.draw_commands@ == Seq::<Command>::empty(),
            r.working_draw_buffer.consecutive_buffers@ == Seq::<ConsecutiveBuffer>::empty(),
            r.working_draw_buffer.clear_command is None,
            !r.working_draw_buffer.ready,
            r.first_command,
    {
        CommandBufferCreator {
            draw_buffers: Vec::new(),
            working_draw_buffer: DrawBuffer::new(),
            first_command: true,
        }
    }
}

/// The incremental builder of one frame's command buffer: commands go in
/// one at a time, and `compile` turns the accumulated segments into a
/// playable `CommandBuffer`.
#[derive(Debug)]
pub struct CommandBufferCreator {
    /// The closed segments, in submission order.
    pub draw_buffers: Vec<DrawBuffer>,
    /// The still-open segment that new commands land in.
    pub working_draw_buffer: DrawBuffer,
    /// Whether no command has been submitted yet.
    pub first_command: bool,
}

/// The segments a creator has accumulated: the closed ones, plus the open
/// one once any command has been submitted.
pub open spec fn creator_segments(c: CommandBufferCreator) -> Seq<SegModel> {
    if c.first_command {
        bufs_model(c.draw_buffers@)
    } else {
        bufs_model(c.draw_buffers@).push(c.working_draw_buffer.model())
    }
}

impl CommandBufferCreator {
    /// Add a command to the command buffer for execution. A clear closes
    /// the open segment (unless it is the very first command) and opens a
    /// new segment led by that clear; any other command is appended to the
    /// open segment.
    pub fn execute(self, command: Command) -> (r: CommandBufferCreator)
        ensures
            !r.first_command,
            match command {
                Command::Clear(ci) => {
                    &&& (if self.first_command {
                        r.draw_buffers@ == self.draw_buffers@
                    } else {
                        r.draw_buffers@ == self.draw_buffers@.push(self.working_draw_buffer)
                    })
                    &&& r.working_draw_buffer.model() == (SegModel {
                        cmds: if self.first_command {
                            self.working_draw_buffer.model().cmds
                        } else {
                            Seq::<Command>::empty()
                        },
                        runs: if self.first_command {
                            self.working_draw_buffer.model().runs
                        } else {
                            Seq::<RunSpec>::empty()
                        },
                        clear: Some(ci),
                        ready: if self.first_command {
                            self.working_draw_buffer.ready
                        } else {
                            false
                        },
                    })
                },
                _ => {
                    &&& r.draw_buffers@ == self.draw_buffers@
                    &&& r.working_draw_buffer.model() == (SegModel {
                        cmds: self.working_draw_buffer.model().cmds.push(command),
                        runs: self.working_draw_buffer.model().runs,
                        clear: self.working_draw_buffer.clear_command,
                        ready: self.working_draw_buffer.ready,
                    })
                },
            },
    {
        let mut this = self;
        match command {
            Command::Clear(ci) => {
                if !this.first_command {
                    // Not the first command in this buffer: close the open
                    // segment and start a new one led by this clear.
                    this.draw_buffers.push(this.working_draw_buffer);
                    this.working_draw_buffer = DrawBuffer::new();
                }
                this.working_draw_buffer.clear_command = Some(ci);
                proof {
                    if self.first_command {
                        assert(this.working_draw_buffer.model() =~= (SegModel {
                            cmds: self.working_draw_buffer.model().cmds,
                            runs: self.working_draw_buffer.model().runs,
                            clear: Some(ci),
                            ready: self.working_draw_buffer.ready,
                        }));
                    } else {
                        assert(this.working_draw_buffer.model() =~= (SegModel {
                            cmds: Seq::<Command>::empty(),
                            runs: Seq::<RunSpec>::empty(),
                            clear: Some(ci),
                            ready: false,
                        }));
                    }
                }
            },
            _ => {
                this.working_draw_buffer.draw_commands.push(command);
                proof {
                    assert(this.working_draw_buffer.model() =~= (SegModel {
                        cmds: self.working_draw_buffer.model().cmds.push(command),
                        runs: self.working_draw_buffer.model().runs,
                        clear: self.working_draw_buffer.clear_command,
                        ready: self.working_draw_buffer.ready,
                    }));
                }
            },
        }
        this.first_command = false;
        this
    }

    /// Compile the command buffer for execution: close the open segment,
    /// drop every segment before the last whole-surface clear, and compile
    /// each surviving segment.
    pub fn compile(self) -> (cb: CommandBuffer)
        ensures
            cb.model() == prune_segments(creator_segments(self)).map_values(
                |m: SegModel| prepared_model(m),
            ),
    {
        let CommandBufferCreator { draw_buffers, working_draw_buffer, first_command } = self;
        let mut segs = draw_buffers;
        if !first_command {
            segs.push(working_draw_buffer);
        }
        let ghost all = creator_segments(self);
        proof {
            assert(bufs_model(segs@) =~= all);
        }
        // Find the last segment led by a whole-surface clear.
        let mut last_all: usize = 0;
        let mut i: usize = 0;
        proof {
            assert(all.take(0) =~= Seq::empty());
        }
        while i < segs.len()
            invariant
                i <= segs.len(),
                all == bufs_model(segs@),
                last_all as int == last_all_clear(all.take(i as int)),
                last_all <= i,
            decreases segs.len() - i,
        {
            proof {
                assert(all.take(i as int + 1).drop_last() =~= all.take(i as int));
                assert(all.take(i as int + 1).last() == all[i as int]);
            }
            if matches!(segs[i].clear_command, Some(ClearInfo::All)) {
                last_all = i;
            }
            i = i + 1;
        }
        proof {
            assert(all.take(all.len() as int) =~= all);
        }
        // Drop everything before it, then compile what survives.
        let mut kept = segs.split_off(last_all);
        let ghost target = prune_segments(all).map_values(|m: SegModel| prepared_model(m));
        proof {
            assert(bufs_model(kept@) =~= prune_segments(all));
        }
        let ghost pruned = bufs_model(kept@);
        let mut j: usize = 0;
        while j < kept.len()
            invariant
                j <= kept.len(),
                kept@.len() == pruned.len(),
                target == pruned.map_values(|m: SegModel| prepared_model(m)),
                forall|k: int| j <= k < pruned.len() ==> kept@[k].model() == pruned[k],
                forall|k: int|
                    0 <= k < j ==> (#[trigger] kept@[k].model()) == prepared_model(pruned[k]),
            decreases kept.len() - j,
        {
            kept[j].prepare();
            j = j + 1;
        }
        let cb = CommandBuffer { draw_buffers: kept };
        proof {
            assert(cb.model() =~= target);
        }
        cb
    }
}

/// How often the colour changes between consecutive draws of `s`.
pub open spec fn colour_changes(s: Seq<(DrawInfo, int)>) -> int
    decreases s.len(),
{
    if s.len() <= 1 {
        0
    } else {
        colour_changes(s.drop_last()) + (if s[s.len() - 2].0.colour == s.last().0.colour {
            0int
        } else {
            1int
        })
    }
}

/// Run compression leaves the last run carrying the colour of the last draw.
pub proof fn lemma_group_runs_last(s: Seq<(DrawInfo, int)>)
    requires
        s.len() > 0,
    ensures
        group_runs(s).len() > 0,
        group_runs(s).last().colour == s.last().0.colour,
{
}

/// Law: run compression is exact. Compressing a sorted draw sequence yields
/// one run per maximal same-colour stretch: one run for a non-empty
/// sequence of a single colour, and one more for every position where the
/// colour changes between consecutive draws.
pub proof fn lemma_run_compression(s: Seq<(DrawInfo, int)>)
    ensures
        group_runs(s).len() == if s.len() == 0 {
            0int
        } else {
            1 + colour_changes(s)
        },
    decreases s.len(),
{
    if s.len() == 0 {
    } else {
        lemma_run_compression(s.drop_last());
        let g = group_runs(s.drop_last());
        let p = s.last();
        assert(group_runs(s) == push_draw(g, p));
        if s.len() == 1 {
            assert(g.len() == 0);
            assert(group_runs(s).len() == 1);
        } else {
            lemma_group_runs_last(s.drop_last());
            assert(s.drop_last().last() == s[s.len() - 2]);
            if g.last().colour == p.0.colour {
                assert(group_runs(s).len() == g.len());
                assert(colour_changes(s) == colour_changes(s.drop_last()));
            } else {
                assert(group_runs(s).len() == g.len() + 1);
                assert(colour_changes(s) == colour_changes(s.drop_last()) + 1);
            }
        }
    }
}

/// Whether `runs` is a well-formed compression: every run is non-empty,
/// every member of a run carries the run's colour, and no two adjacent runs
/// share a colour (they would otherwise have been merged).
pub open spec fn runs_wf(runs: Seq<RunSpec>) -> bool {
    &&& forall|i: int| 0 <= i < runs.len() ==> (#[trigger] runs[i]).members.len() > 0
    &&& forall|i: int, j: int|
        0 <= i < runs.len() && 0 <= j < runs[i].members.len() ==> (#[trigger] runs[i].members[
            j
        ]).colour == runs[i].colour
    &&& forall|i: int| 0 <= i < runs.len() - 1 ==> (#[trigger] runs[i]).colour != runs[i
        + 1].colour
}

/// Law: the invariant of a compiled segment's runs. Every run compression
/// is well-formed: within a run all draws share exactly one colour, and
/// across adjacent runs the colours differ.
pub proof fn lemma_runs_wf(s: Seq<(DrawInfo, int)>)
    ensures
        runs_wf(group_runs(s)),
    decreases s.len(),
{
    if s.len() == 0 {
    } else {
        lemma_runs_wf(s.drop_last());
        let g = group_runs(s.drop_last());
        let r = group_runs(s);
        let p = s.last();
        if g.len() > 0 && g.last().colour == p.0.colour {
            assert(r == g.update(g.len() - 1, RunSpec {
                colour: g.last().colour,
                members: g.last().members.push(p.0),
                end: p.1,
            }));
            assert(forall|i: int| 0 <= i < r.len() - 1 ==> (#[trigger] r[i]).colour == g[
                i
            ].colour);
            assert(forall|i: int, j: int|
                0 <= i < r.len() && 0 <= j < r[i].members.len() ==> (#[trigger] r[i].members[
                    j
                ]).colour == r[i].colour);
        } else {
            assert(forall|i: int, j: int|
                0 <= i < r.len() && 0 <= j < r[i].members.len() ==> (#[trigger] r[i].members[
                    j
                ]).colour == r[i].colour);
        }
    }
}

/// The members of a list of runs, flattened back into one draw sequence.
pub open spec fn runs_members(runs: Seq<RunSpec>) -> Seq<DrawInfo>
    decreases runs.len(),
{
    if runs.len() == 0 {
        Seq::empty()
    } else {
        runs_members(runs.drop_last()) + runs.last().members
    }
}

/// Law: run compression loses nothing and invents nothing. Flattening the
/// compressed runs gives back exactly the sorted draw sequence.
pub proof fn lemma_runs_complete(s: Seq<(DrawInfo, int)>)
    ensures
        runs_members(group_runs(s)) == s.map_values(|p: (DrawInfo, int)| p.0),
    decreases s.len(),
{
    let stripped = s.map_values(|p: (DrawInfo, int)| p.0);
    if s.len() == 0 {
        assert(runs_members(group_runs(s)) =~= stripped);
    } else {
        lemma_runs_complete(s.drop_last());
        let g = group_runs(s.drop_last());
        let r = group_runs(s);
        let p = s.last();
        let prev = s.drop_last().map_values(|q: (DrawInfo, int)| q.0);
        assert(prev.push(p.0) =~= stripped);
        if g.len() > 0 && g.last().colour == p.0.colour {
            assert(r.drop_last() =~= g.drop_last());
            assert(runs_members(r) == runs_members(g.drop_last()) + g.last().members.push(p.0));
            assert(runs_members(g) == runs_members(g.drop_last()) + g.last().members);
            assert(runs_members(g.drop_last()) + g.last().members.push(p.0) =~= (runs_members(
                g.drop_last(),
            ) + g.last().members).push(p.0));
        } else {
            assert(r.drop_last() =~= g);
            assert(runs_members(r) == runs_members(g) + seq![p.0]);
            assert(runs_members(g) + seq![p.0] =~= runs_members(g).push(p.0));
        }
    }
}

/// Beyond the position of the last whole-surface clear, no segment opens
/// with a whole-surface clear.
pub proof fn lemma_last_all_clear_bound(segs: Seq<SegModel>)
    ensures
        0 <= last_all_clear(segs) <= (if segs.len() == 0 {
            0int
        } else {
            segs.len() - 1
        }),
        forall|i: int|
            last_all_clear(segs) < i < segs.len() ==> (#[trigger] segs[i]).clear != Some(
                ClearInfo::All,
            ),
    decreases segs.len(),
{
    if segs.len() == 0 {
    } else if segs.last().clear == Some(ClearInfo::All) {
    } else {
        lemma_last_all_clear_bound(segs.drop_last());
        assert(forall|i: int|
            0 <= i < segs.len() - 1 ==> (#[trigger] segs[i]) == segs.drop_last()[i]);
    }
}

/// A sequence whose segments past position zero never open with a
/// whole-surface clear has its last whole-surface clear at zero.
pub proof fn lemma_last_all_clear_zero(segs: Seq<SegModel>)
    requires
        forall|i: int| 1 <= i < segs.len() ==> (#[trigger] segs[i]).clear != Some(ClearInfo::All),
    ensures
        last_all_clear(segs) == 0,
    decreases segs.len(),
{
    if segs.len() == 0 {
    } else if segs.len() == 1 {
        assert(segs.drop_last().len() == 0);
        assert(last_all_clear(segs.drop_last()) == 0);
    } else {
        assert(segs.last() == segs[segs.len() - 1]);
        assert(segs.last().clear != Some(ClearInfo::All));
        assert(forall|i: int|
            1 <= i < segs.len() - 1 ==> (#[trigger] segs.drop_last()[i]) == segs[i]);
        lemma_last_all_clear_zero(segs.drop_last());
    }
}

/// Law: pruning is idempotent. Dropping everything before the last
/// whole-surface clear, done twice, is the same as doing it once.
pub proof fn lemma_prune_idempotent(segs: Seq<SegModel>)
    ensures
        prune_segments(prune_segments(segs)) == prune_segments(segs),
{
    let k = last_all_clear(segs);
    let kept = prune_segments(segs);
    lemma_last_all_clear_bound(segs);
    assert(forall|i: int| 1 <= i < kept.len() ==> (#[trigger] kept[i]) == segs[k + i]);
    lemma_last_all_clear_zero(kept);
    assert(kept.skip(0) =~= kept);
}

/// The draws of `cmds`, counted and listed, agree.
pub proof fn lemma_indexed_draws_count(cmds: Seq<Command>)
    ensures
        indexed_draws(cmds).len() == draw_count(cmds),
    decreases cmds.len(),
{
    if cmds.len() == 0 {
    } else {
        lemma_indexed_draws_count(cmds.drop_last());
    }
}

/// Whether `s` is ordered by the compile pass's sort order.
pub open spec fn sorted_pairs(s: Seq<(DrawInfo, int)>, width: int) -> bool {
    forall|a: int, b: int|
        #![trigger s[a], s[b]]
        0 <= a < b < s.len() ==> key_le(s[a], s[b], width)
}

/// Whether one run lists its members in raster order.
pub open spec fn run_members_sorted(r: RunSpec, width: int) -> bool {
    forall|a: int, b: int|
        #![trigger r.members[a], r.members[b]]
        0 <= a < b < r.members.len() ==> raster_index(r.members[a], width) <= raster_index(
            r.members[b],
            width,
        )
}

/// Whether every run lists its members in raster order.
pub open spec fn runs_sorted(runs: Seq<RunSpec>, width: int) -> bool {
    forall|i: int| 0 <= i < runs.len() ==> run_members_sorted(#[trigger] runs[i], width)
}

/// Whatever placing `p` yields is `p` itself or was already in `s`.
proof fn lemma_insert_sorted_contains(s: Seq<(DrawInfo, int)>, p: (DrawInfo, int), width: int)
    ensures
        forall|k: int|
            0 <= k < insert_sorted(s, p, width).len() ==> ((#[trigger] insert_sorted(
                s,
                p,
                width,
            )[k]) == p || s.contains(insert_sorted(s, p, width)[k])),
    decreases s.len(),
{
    let r = insert_sorted(s, p, width);
    if s.len() == 0 {
    } else if key_le(s.last(), p, width) {
        assert forall|k: int| 0 <= k < r.len() implies ((#[trigger] r[k]) == p || s.contains(
            r[k],
        )) by {
            if k < s.len() {
                assert(r[k] == s[k]);
            }
        }
    } else {
        lemma_insert_sorted_contains(s.drop_last(), p, width);
        let inner = insert_sorted(s.drop_last(), p, width);
        assert forall|k: int| 0 <= k < r.len() implies ((#[trigger] r[k]) == p || s.contains(
            r[k],
        )) by {
            if k < inner.len() {
                assert(r[k] == inner[k]);
                if inner[k] != p {
                    let j = choose|j: int|
                        0 <= j < s.drop_last().len() && s.drop_last()[j] == inner[k];
                    assert(s[j] == inner[k]);
                }
            } else {
                assert(r[k] == s.last());
                assert(s[s.len() - 1] == s.last());
            }
        }
    }
}

/// Placing one element keeps the sequence sorted.
proof fn lemma_insert_sorted_sorted(s: Seq<(DrawInfo, int)>, p: (DrawInfo, int), width: int)
    requires
        sorted_pairs(s, width),
    ensures
        sorted_pairs(insert_sorted(s, p, width), width),
    decreases s.len(),
{
    let r = insert_sorted(s, p, width);
    if s.len() == 0 {
    } else if key_le(s.last(), p, width) {
        assert forall|a: int, b: int| 0 <= a < b < r.len() implies key_le(r[a], r[b], width) by {
            if b < s.len() {
                assert(key_le(s[a], s[b], width));
            } else {
                assert(r[b] == p);
                if a == s.len() - 1 {
                    assert(key_le(s.last(), p, width));
                } else {
                    assert(key_le(s[a], s[s.len() - 1], width));
                }
            }
        }
    } else {
        assert(sorted_pairs(s.drop_last(), width)) by {
            assert(forall|a: int, b: int|
                #![trigger s.drop_last()[a], s.drop_last()[b]]
                0 <= a < b < s.drop_last().len() ==> key_le(s[a], s[b], width));
        }
        lemma_insert_sorted_sorted(s.drop_last(), p, width);
        lemma_insert_sorted_contains(s.drop_last(), p, width);
        let inner = insert_sorted(s.drop_last(), p, width);
        assert forall|a: int, b: int| 0 <= a < b < r.len() implies key_le(r[a], r[b], width) by {
            if b < inner.len() {
                assert(key_le(inner[a], inner[b], width));
            } else {
                assert(r[b] == s.last());
                assert(r[a] == inner[a]);
                if inner[a] == p {
                    assert(key_le(p, s.last(), width));
                } else {
                    let j = choose|j: int|
                        0 <= j < s.drop_last().len() && s.drop_last()[j] == inner[a];
                    assert(s[j] == inner[a]);
                    if j < s.len() - 1 {
                        assert(key_le(s[j], s[s.len() - 1], width));
                    }
                }
            }
        }
    }
}

/// The compile pass's sort really sorts.
pub proof fn lemma_sort_draws_sorted(s: Seq<(DrawInfo, int)>, width: int)
    ensures
        sorted_pairs(sort_draws(s, width), width),
    decreases s.len(),
{
    if s.len() == 0 {
    } else {
        lemma_sort_draws_sorted(s.drop_last(), width);
        lemma_insert_sorted_sorted(sort_draws(s.drop_last(), width), s.last(), width);
    }
}

/// Grouping a sorted draw sequence leaves every run's members in raster
/// order, each bounded by the last draw grouped so far.
proof fn lemma_group_runs_sorted_aux(s: Seq<(DrawInfo, int)>, width: int)
    requires
        sorted_pairs(s, width),
    ensures
        runs_sorted(group_runs(s), width),
        s.len() > 0 ==> (forall|i: int, a: int|
            #![trigger group_runs(s)[i].members[a]]
            0 <= i < group_runs(s).len() && 0 <= a < group_runs(s)[i].members.len()
                ==> raster_index(group_runs(s)[i].members[a], width) <= raster_index(
                s.last().0,
                width,
            )),
    decreases s.len(),
{
    if s.len() == 0 {
    } else {
        assert(sorted_pairs(s.drop_last(), width)) by {
            assert(forall|a: int, b: int|
                #![trigger s.drop_last()[a], s.drop_last()[b]]
                0 <= a < b < s.drop_last().len() ==> key_le(s[a], s[b], width));
        }
        lemma_group_runs_sorted_aux(s.drop_last(), width);
        let g = group_runs(s.drop_last());
        let r = group_runs(s);
        let p = s.last();
        if s.len() >= 2 {
            assert(key_le(s[s.len() - 2], s[s.len() - 1], width));
            assert(s.drop_last().last() == s[s.len() - 2]);
        }
        assert(r == push_draw(g, p));
        if g.len() > 0 && g.last().colour == p.0.colour {
            assert forall|i: int| 0 <= i < r.len() implies run_members_sorted(
                #[trigger] r[i],
                width,
            ) by {
                if i < r.len() - 1 {
                    assert(r[i] == g[i]);
                } else {
                    assert(r[i].members == g.last().members.push(p.0));
                }
            }
        } else {
            assert forall|i: int| 0 <= i < r.len() implies run_members_sorted(
                #[trigger] r[i],
                width,
            ) by {
                if i < r.len() - 1 {
                    assert(r[i] == g[i]);
                } else {
                    assert(r[i].members == seq![p.0]);
                }
            }
        }
    }
}

/// Law: the invariant of a compiled segment's runs, continued. Each run of
/// a compiled segment lists its members in raster order at the width the
/// segment compiled with.
pub proof fn lemma_compiled_runs_members_sorted(cmds: Seq<Command>)
    ensures
        runs_sorted(compiled_runs(cmds), max_draw_x(cmds)),
{
    lemma_sort_draws_sorted(indexed_draws(cmds), max_draw_x(cmds));
    lemma_group_runs_sorted_aux(
        sort_draws(indexed_draws(cmds), max_draw_x(cmds)),
        max_draw_x(cmds),
    );
}

/// Placing one element grows a sorted sequence by exactly one.
pub proof fn lemma_insert_sorted_len(s: Seq<(DrawInfo, int)>, p: (DrawInfo, int), width: int)
    ensures
        insert_sorted(s, p, width).len() == s.len() + 1,
    decreases s.len(),
{
    if s.len() == 0 {
    } else if key_le(s.last(), p, width) {
    } else {
        lemma_insert_sorted_len(s.drop_last(), p, width);
    }
}

/// Sorting keeps the number of draws.
pub proof fn lemma_sort_draws_len(s: Seq<(DrawInfo, int)>, width: int)
    ensures
        sort_draws(s, width).len() == s.len(),
    decreases s.len(),
{
    if s.len() == 0 {
    } else {
        lemma_sort_draws_len(s.drop_last(), width);
        lemma_insert_sorted_len(sort_draws(s.drop_last(), width), s.last(), width);
    }
}

/// Compression never yields more runs than draws.
pub proof fn lemma_group_runs_len_le(s: Seq<(DrawInfo, int)>)
    ensures
        group_runs(s).len() <= s.len(),
    decreases s.len(),
{
    if s.len() == 0 {
    } else {
        lemma_group_runs_len_le(s.drop_last());
    }
}

/// Law: playback fires every run. One run fires per draw command met in
/// the original-order walk, and a segment never compiles to more runs than
/// it has draw commands, so no run is left behind.
pub proof fn lemma_every_run_fires(cmds: Seq<Command>)
    ensures
        compiled_runs(cmds).len() <= draw_count(cmds),
{
    lemma_indexed_draws_count(cmds);
    lemma_sort_draws_len(indexed_draws(cmds), max_draw_x(cmds));
    lemma_group_runs_len_le(sort_draws(indexed_draws(cmds), max_draw_x(cmds)));
}

/// A command list never holds a negative number of draws.
pub proof fn lemma_draw_count_nonneg(cmds: Seq<Command>)
    ensures
        draw_count(cmds) >= 0,
    decreases cmds.len(),
{
    if cmds.len() == 0 {
    } else {
        lemma_draw_count_nonneg(cmds.drop_last());
    }
}

/// Playing a command list with no runs emits only the explicit cursor moves
/// and flushes of the list.
pub proof fn lemma_body_ops_no_runs(cmds: Seq<Command>)
    ensures
        forall|i: int|
            0 <= i < body_ops(cmds, Seq::<RunSpec>::empty()).len() ==> ((#[trigger] body_ops(
                cmds,
                Seq::<RunSpec>::empty(),
            )[i]) is MoveTo || body_ops(cmds, Seq::<RunSpec>::empty())[i] is Flush),
    decreases cmds.len(),
{
    if cmds.len() == 0 {
    } else {
        lemma_body_ops_no_runs(cmds.drop_last());
        let e = Seq::<RunSpec>::empty();
        let prefix = body_ops(cmds.drop_last(), e);
        match cmds.last() {
            Command::Draw(_) => {
                lemma_draw_count_nonneg(cmds.drop_last());
                assert(body_ops(cmds, e) == prefix);
            },
            Command::SetCursorPosition(x, y) => {
                assert(body_ops(cmds, e) == prefix.push(TermOp::MoveTo(x, y)));
            },
            Command::Flush => {
                assert(body_ops(cmds, e) == prefix.push(TermOp::Flush));
            },
            Command::Clear(_) => {
                assert(body_ops(cmds, e) == prefix);
            },
        }
    }
}

/// Law: compiling a segment with no draw commands yields no runs, and its
/// playback performs no colour-set and paints nothing: beyond its leading
/// clear, only the explicit cursor moves and flushes of its command list
/// remain.
pub proof fn lemma_empty_segment_compile(m: SegModel)
    requires
        !m.ready,
        m.runs == Seq::<RunSpec>::empty(),
        draw_count(m.cmds) == 0,
    ensures
        prepared_model(m).runs.len() == 0,
        segment_ops(prepared_model(m)) == clear_ops_opt(m.clear) + body_ops(
            m.cmds,
            Seq::<RunSpec>::empty(),
        ),
        forall|i: int|
            0 <= i < body_ops(m.cmds, Seq::<RunSpec>::empty()).len() ==> ((#[trigger] body_ops(
                m.cmds,
                Seq::<RunSpec>::empty(),
            )[i]) is MoveTo || body_ops(m.cmds, Seq::<RunSpec>::empty())[i] is Flush),
{
    lemma_indexed_draws_count(m.cmds);
    assert(indexed_draws(m.cmds) =~= Seq::<(DrawInfo, int)>::empty());
    assert(compiled_runs(m.cmds) =~= Seq::<RunSpec>::empty());
    assert(prepared_model(m).runs =~= Seq::<RunSpec>::empty());
    lemma_body_ops_no_runs(m.cmds);
}

} // verus!
