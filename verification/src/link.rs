//! Device link lifecycle and the read-loop core.
//!
//! At most one link to the device is ever active. The supervisor hands out a
//! fresh generation number for every link it records, so a command can never
//! be sent over a stale link: connecting first tears the old link down, and
//! the generation the caller holds afterwards belongs to the new one. The
//! reader turns each chunk of socket bytes into messages through the frame
//! extractor and delivers them to the bus; when the stream ends, it always
//! leaves a closing notice behind so no subscriber keeps assuming a dead
//! connection is live.

use vstd::prelude::*;

use vstd::string::StringSliceAdditionalSpecFns;

use crate::bus::{delivered_to_all, Bus};
use crate::extractor::{extract_frames, extract_from};

verus! {

/// The literal text frame that tells every subscriber the device link is
/// gone or the stream has ended.
pub open spec fn link_closed_text() -> Seq<char> {
    "TCP_CONNECTION_CLOSED_OR_STREAM_ENDED"@
}

/// The closing notice as a message ready to publish.
pub fn link_closed_notice() -> (s: String)
    ensures
        s@ == link_closed_text(),
{
    "TCP_CONNECTION_CLOSED_OR_STREAM_ENDED".to_owned()
}

/// Keeper of the "at most one active link" rule. Each link the supervisor
/// ever records gets its own generation number; the caller holds the number
/// with the connection it stands for, and a number the supervisor no longer
/// names is a stale link.
pub struct LinkSupervisor {
    /// Generation of the active link, if one is up.
    pub active: Option<u64>,
    /// The next generation number to hand out; larger than every generation
    /// handed out so far.
    pub next_gen: u64,
}

impl LinkSupervisor {
    /// An active generation is always one that was handed out earlier.
    pub open spec fn wf(self) -> bool {
        self.active matches Some(g) ==> g < self.next_gen
    }

    /// A supervisor with no link and no history.
    pub fn new() -> (s: LinkSupervisor)
        ensures
            s.wf(),
            s.active is None,
            s.next_gen == 0,
    {
        LinkSupervisor { active: None, next_gen: 0 }
    }

    /// First half of connecting: whatever link is active is torn down before
    /// any new connection is attempted. Returns whether there was one, so
    /// the caller can drop its write half and cancel its reader.
    pub fn begin_connect(&mut self) -> (had_link: bool)
        requires
            old(self).wf(),
        ensures
            final(self).wf(),
            final(self).active is None,
            had_link == (old(self).active is Some),
            final(self).next_gen == old(self).next_gen,
    {
        let had_link = self.active.is_some();
        self.active = None;
        had_link
    }

    /// Second half of connecting, called once the transport handshake has
    /// succeeded: records the new link and returns its generation, fresh by
    /// construction — no earlier link ever bore it.
    pub fn complete_connect(&mut self) -> (gen: u64)
        requires
            old(self).wf(),
            old(self).active is None,
            old(self).next_gen < u64::MAX,
        ensures
            final(self).wf(),
            gen == old(self).next_gen,
            final(self).active == Some(gen),
            final(self).next_gen == gen + 1,
    {
        let gen = self.next_gen;
        self.active = Some(gen);
        self.next_gen = gen + 1;
        gen
    }

    /// Drop the active link, if any. Calling this with no link up is a
    /// no-op, not an error: the supervisor is left exactly as it was.
    pub fn disconnect(&mut self)
        requires
            old(self).wf(),
        ensures
            final(self).wf(),
            final(self).active is None,
            final(self).next_gen == old(self).next_gen,
            old(self).active is None ==> *final(self) == *old(self),
    {
        self.active = None;
    }

    /// Where a command should go: the generation of the active link, or
    /// nowhere — sending without a link is a reportable failure, never a
    /// write to a half-closed socket.
    pub fn send_target(&self) -> (target: Option<u64>)
        ensures
            target == self.active,
    {
        self.active
    }

    /// Whether a link is currently up.
    pub fn is_connected(&self) -> (up: bool)
        ensures
            up == (self.active is Some),
    {
        self.active.is_some()
    }
}

/// A generation that a well-formed supervisor is already naming as active
/// can never be the one it hands out next: the link recorded by a completed
/// reconnect is a different link from the one torn down before it.
pub proof fn lemma_fresh_generation(s: LinkSupervisor, g: u64)
    requires
        s.wf(),
        s.active == Some(g),
    ensures
        g != s.next_gen,
{
}

/// A raw text command as it goes on the wire: the text's bytes followed by
/// one carriage-return byte.
pub fn framed_text_command(text: &str) -> (wire: Vec<u8>)
    ensures
        wire@ == text.spec_bytes().push(13u8),
{
    let mut wire = vstd::slice::slice_to_vec(text.as_bytes());
    wire.push(13u8);
    wire
}

/// The read half of one live link: the bytes not yet consumed by the frame
/// extractor, and whether the stream has ended.
pub struct LinkReader {
    /// Unconsumed input; at most one truncated fragment plus bytes that
    /// arrived after it.
    pub buffer: Vec<u8>,
    /// Set once the stream ended and the closing notice went out.
    pub finished: bool,
}

impl LinkReader {
    /// A reader for a freshly connected link.
    pub fn new() -> (r: LinkReader)
        ensures
            r.buffer@.len() == 0,
            !r.finished,
    {
        LinkReader { buffer: Vec::new(), finished: false }
    }

    /// Feed one chunk of socket bytes: every complete JSON value now present
    /// is extracted and delivered to the bus, in arrival order, and only the
    /// unconsumed suffix stays buffered.
    pub fn on_data(&mut self, chunk: &[u8], bus: &mut Bus)
        requires
            !old(self).finished,
            old(bus).wf(),
        ensures
            !final(self).finished,
            final(self).buffer@ == (old(self).buffer@ + chunk@).skip(
                extract_from(old(self).buffer@ + chunk@, 0).1,
            ),
            delivered_to_all(
                *old(bus),
                *final(bus),
                extract_from(old(self).buffer@ + chunk@, 0).0,
            ),
    {
        self.buffer.extend_from_slice(chunk);
        proof {
            assert(self.buffer@ =~= old(self).buffer@ + chunk@);
        }
        let msgs = extract_frames(&mut self.buffer);
        bus.publish_many(&msgs);
    }

    /// The stream has ended — orderly close or read failure alike: whatever
    /// incomplete fragment is still buffered is discarded, the closing
    /// notice is delivered to every subscriber, and the reader is finished.
    pub fn on_stream_end(&mut self, bus: &mut Bus)
        requires
            old(bus).wf(),
        ensures
            final(self).finished,
            final(self).buffer@.len() == 0,
            exists|notice: String|
                notice@ == link_closed_text() && delivered_to_all(
                    *old(bus),
                    *final(bus),
                    seq![notice],
                ),
    {
        self.buffer.clear();
        self.finished = true;
        let notice = link_closed_notice();
        let ghost n = notice;
        let mut one: Vec<String> = Vec::new();
        one.push(notice);
        bus.publish_many(&one);
        proof {
            assert(one@ =~= seq![n]);
            assert(n@ == link_closed_text() && delivered_to_all(*old(bus), *bus, seq![n]));
        }
    }
}

} // verus!
