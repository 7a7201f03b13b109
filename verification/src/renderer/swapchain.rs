//! The frame ring ("swapchain"): a fixed set of rotating presentation
//! targets. A producer plays compiled buffers into the current target and
//! rotates; a presenter drains the target that was just filled.

use vstd::prelude::*;
use vstd::string::*;
use crate::renderer::ansi::{encode_ops, ops_encodable, ops_text_ok};
use crate::renderer::command_buffer::{CommandBuffer, RenderError, buffer_ops};
use crate::renderer::command::TermOp;

verus! {

/// One presentation target: the text queued for the terminal device since
/// the target was last drained.
#[derive(Debug)]
pub struct Framebuffer {
    pub queued: String,
}

impl Framebuffer {
    /// An empty target.
    pub fn new() -> (r: Framebuffer)
        ensures
            r.queued@ == Seq::<char>::empty(),
    {
        Framebuffer { queued: String::new() }
    }

    /// Take everything queued since the last drain. The caller writes the
    /// returned text to the terminal device and forces it out.
    pub fn flush(&mut self) -> (out: String)
        ensures
            out@ == old(self).queued@,
            final(self).queued@ == Seq::<char>::empty(),
    {
        let out = self.queued.clone();
        self.queued = String::new();
        out
    }

    /// Queue the encoding of `ops`, in order, after what is already queued.
    pub fn queue_ops(&mut self, ops: &Vec<TermOp>)
        requires
            ops_encodable(ops@),
        ensures
            exists|t: Seq<char>|
                final(self).queued@ == old(self).queued@ + t && ops_text_ok(ops@, t),
    {
        encode_ops(&mut self.queued, ops);
    }
}

/// The fixed ring of presentation targets plus the index of the one the
/// producer is writing into.
#[derive(Debug)]
pub struct Swapchain {
    pub framebuffers: Vec<Framebuffer>,
    pub working_framebuffer: usize,
}

impl Swapchain {
    /// Well-formedness: the write index stays inside the ring, so the ring
    /// holds at least one target.
    pub open spec fn wf(&self) -> bool {
        self.working_framebuffer < self.framebuffers@.len()
    }

    /// A ring of `framebuffer_count` empty targets, writing into the first.
    pub fn new(framebuffer_count: usize) -> (r: Swapchain)
        requires
            framebuffer_count >= 1,
        ensures
            r.wf(),
            r.framebuffers@.len() == framebuffer_count,
            r.working_framebuffer == 0,
            forall|i: int|
                0 <= i < framebuffer_count ==> (#[trigger] r.framebuffers@[i]).queued@
                    == Seq::<char>::empty(),
    {
        let mut buffers: Vec<Framebuffer> = Vec::new();
        let mut i: usize = 0;
        while i < framebuffer_count
            invariant
                i <= framebuffer_count,
                buffers@.len() == i,
                forall|k: int|
                    0 <= k < i ==> (#[trigger] buffers@[k]).queued@ == Seq::<char>::empty(),
            decreases framebuffer_count - i,
        {
            buffers.push(Framebuffer::new());
            i = i + 1;
        }
        Swapchain { framebuffers: buffers, working_framebuffer: 0 }
    }

    /// Play a compiled buffer into the current target: every operation of
    /// the buffer, encoded in order, joins the target's queued text. When
    /// some segment of the buffer was never compiled, nothing is queued and
    /// `NotCompiled` comes back. The buffer's operations must fit the wire
    /// encoding; `CommandBuffer::fits_wire` decides that at run time.
    pub fn queue_commands(&mut self, commands: &CommandBuffer) -> (r: Result<(), RenderError>)
        requires
            old(self).wf(),
            commands.all_ready() ==> ops_encodable(buffer_ops(commands.model())),
        ensures
            final(self).wf(),
            final(self).working_framebuffer == old(self).working_framebuffer,
            final(self).framebuffers@.len() == old(self).framebuffers@.len(),
            r is Ok <==> commands.all_ready(),
            !commands.all_ready() ==> r == Err::<(), RenderError>(RenderError::NotCompiled)
                && final(self).framebuffers@ == old(self).framebuffers@,
            commands.all_ready() ==> (forall|i: int|
                0 <= i < old(self).framebuffers@.len() && i != old(self).working_framebuffer
                    ==> (#[trigger] final(self).framebuffers@[i]) == old(self).framebuffers@[i]),
            commands.all_ready() ==> (exists|t: Seq<char>|
                final(self).framebuffers@[old(self).working_framebuffer as int].queued@ == old(
                    self,
                ).framebuffers@[old(self).working_framebuffer as int].queued@ + t && ops_text_ok(
                    buffer_ops(commands.model()),
                    t,
                )),
    {
        let ops = match commands.execute() {
            Ok(ops) => ops,
            Err(e) => {
                return Err(e);
            },
        };
        let idx = self.working_framebuffer;
        self.framebuffers[idx].queue_ops(&ops);
        Ok(())
    }

    /// Rotate the ring: the write index advances by exactly one slot,
    /// modulo the ring size. The index that was just filled comes back, so
    /// the presenter can drain the completed target rather than the one
    /// about to be overwritten.
    pub fn swap(&mut self) -> (filled: usize)
        requires
            old(self).wf(),
        ensures
            final(self).wf(),
            filled == old(self).working_framebuffer,
            final(self).working_framebuffer == (old(self).working_framebuffer + 1) % (old(
                self,
            ).framebuffers@.len() as int),
            final(self).framebuffers@ == old(self).framebuffers@,
    {
        let filled = self.working_framebuffer;
        let n = self.framebuffers.len();
        assert(filled < n);
        self.working_framebuffer = (filled + 1) % n;
        filled
    }
}

} // verus!
