//! The steering and follow-up queues of a session.
use vstd::prelude::*;

use crate::types::{messages_view, AgentMessage, MessageView};

verus! {

/// Messages queued for a session: steering messages join the run before its
/// next turn; follow-up messages start another round when the run would stop.
#[derive(Debug)]
pub struct SessionEventHub {
    steer_queue: Vec<AgentMessage>,
    follow_up_queue: Vec<AgentMessage>,
}

/// Abstract value of the queues.
pub struct QueuesView {
    pub steer: Seq<MessageView>,
    pub follow_up: Seq<MessageView>,
}

impl View for SessionEventHub {
    type V = QueuesView;

    closed spec fn view(&self) -> QueuesView {
        QueuesView {
            steer: messages_view(self.steer_queue@),
            follow_up: messages_view(self.follow_up_queue@),
        }
    }
}

impl SessionEventHub {
    /// Empty queues.
    pub fn new() -> (r: Self)
        ensures
            r@.steer.len() == 0,
            r@.follow_up.len() == 0,
    {
        SessionEventHub { steer_queue: Vec::new(), follow_up_queue: Vec::new() }
    }

    /// Queues a steering message.
    pub fn steer(&mut self, msg: AgentMessage)
        ensures
            final(self)@ == (QueuesView { steer: old(self)@.steer.push(msg@), ..old(self)@ }),
    {
        self.steer_queue.push(msg);
        proof {
            assert(messages_view(self.steer_queue@) =~= messages_view(old(self).steer_queue@).push(
                msg@,
            ));
        }
    }

    /// Queues a follow-up message.
    pub fn follow_up(&mut self, msg: AgentMessage)
        ensures
            final(self)@ == (QueuesView { follow_up: old(self)@.follow_up.push(msg@), ..old(self)@ }),
    {
        self.follow_up_queue.push(msg);
        proof {
            assert(messages_view(self.follow_up_queue@) =~= messages_view(
                old(self).follow_up_queue@,
            ).push(msg@));
        }
    }

    /// Takes every queued steering message, in order, leaving the queue empty.
    pub fn drain_steer(&mut self) -> (r: Vec<AgentMessage>)
        ensures
            messages_view(r@) == old(self)@.steer,
            final(self)@ == (QueuesView { steer: Seq::empty(), ..old(self)@ }),
    {
        let mut r: Vec<AgentMessage> = Vec::new();
        std::mem::swap(&mut r, &mut self.steer_queue);
        proof {
            assert(messages_view(self.steer_queue@) =~= Seq::<MessageView>::empty());
        }
        r
    }

    /// Takes every queued follow-up message, in order, leaving the queue empty.
    pub fn drain_follow_up(&mut self) -> (r: Vec<AgentMessage>)
        ensures
            messages_view(r@) == old(self)@.follow_up,
            final(self)@ == (QueuesView { follow_up: Seq::empty(), ..old(self)@ }),
    {
        let mut r: Vec<AgentMessage> = Vec::new();
        std::mem::swap(&mut r, &mut self.follow_up_queue);
        proof {
            assert(messages_view(self.follow_up_queue@) =~= Seq::<MessageView>::empty());
        }
        r
    }
}

impl Default for SessionEventHub {
    fn default() -> (r: Self)
        ensures
            r@.steer.len() == 0,
            r@.follow_up.len() == 0,
    {
        SessionEventHub::new()
    }
}

} // verus!
