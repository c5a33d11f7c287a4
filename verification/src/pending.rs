//! The authorization session of one unapproved inbound link: it buffers the
//! peer's messages and decides, from operator controls and from what the
//! peer sends, whether the link is approved or denied.

use vstd::prelude::*;

use crate::message::{msgs_view, Message, MessageV, RouterMessage, RouterMsgV, UiMessage, UiMsgV};
use crate::text::{string_eq, strs_view};

verus! {

broadcast use vstd::std_specs::vec::group_vec_axioms;

/// How many wrong approval codes a peer may present before the session is
/// denied.
pub const MAX_CODE_ATTEMPTS: u8 = 5;

/// How many messages the session buffers before giving up on the peer.
pub const MAX_BACKLOG: usize = 100;

/// What a session step decided.
#[derive(Clone, Copy, PartialEq, Eq, Structural, Debug)]
pub enum PendingOutcome {
    /// Keep waiting.
    Wait,
    /// Approve the link; the backlog replays through the normal path.
    Approve,
    /// Deny the link and discard the backlog.
    Deny,
}

/// An operator's or router's control over one pending link.
pub enum PendingLinkControl {
    /// Approve the link.
    Approve,
    /// Deny the link.
    Deny,
    /// A newly valid approval code.
    AddCode(String),
}

/// The state of one pending link's session.
pub struct PendingLinkSession {
    /// The approval codes valid when the session began, with those added
    /// since.
    pub codes: Vec<String>,
    /// The last wrong code the peer presented; a code added later that
    /// matches it approves the link.
    pub last_code: Option<String>,
    /// How many wrong codes the peer has presented.
    pub code_attempts: u8,
    /// The messages buffered while waiting.
    pub backlog: Vec<Message>,
    /// Whether the peer has asked to subscribe as an interface.
    pub recvd_ui: bool,
}

impl PendingLinkSession {
    /// Begin a session with the codes valid now.
    pub fn new(codes: Vec<String>) -> (r: Self)
        ensures
            strs_view(r.codes@) == strs_view(codes@),
            r.last_code is None,
            r.code_attempts == 0,
            r.backlog@.len() == 0,
            r.recvd_ui == false,
    {
        PendingLinkSession {
            codes,
            last_code: None,
            code_attempts: 0,
            backlog: Vec::new(),
            recvd_ui: false,
        }
    }

    /// Whether a code is among the valid ones.
    #[verifier::loop_isolation(false)]
    pub fn knows_code(&self, code: &String) -> (r: bool)
        ensures
            r == strs_view(self.codes@).contains(code@),
    {
        let mut i: usize = 0;
        while i < self.codes.len()
            invariant
                i <= self.codes@.len(),
                forall|j: int| 0 <= j < i ==> strs_view(self.codes@)[j] != code@,
            decreases self.codes@.len() - i,
        {
            if string_eq(&self.codes[i], code) {
                proof {
                    assert(strs_view(self.codes@)[i as int] == code@);
                }
                return true;
            }
            i = i + 1;
        }
        proof {
            assert forall|j: int|
                0 <= j < strs_view(self.codes@).len() implies strs_view(self.codes@)[j]
                != code@ by {}
        }
        false
    }

    /// React to an operator control: approval and denial settle the session;
    /// a late-added code settles it when it matches the peer's last attempt,
    /// and otherwise joins the valid codes.
    pub fn on_control(&mut self, ctrl: PendingLinkControl) -> (r: PendingOutcome)
        ensures
            match ctrl@ {
                PendingCtrlV::Approve => r == PendingOutcome::Approve && *final(self) == *old(self),
                PendingCtrlV::Deny => r == PendingOutcome::Deny && *final(self) == *old(self),
                PendingCtrlV::AddCode(c) => {
                    if old(self).last_code matches Some(lc) && lc@ == c {
                        r == PendingOutcome::Approve && *final(self) == *old(self)
                    } else {
                        &&& r == PendingOutcome::Wait
                        &&& strs_view(final(self).codes@) == strs_view(old(self).codes@).push(c)
                        &&& final(self).last_code == old(self).last_code
                        &&& final(self).code_attempts == old(self).code_attempts
                        &&& final(self).backlog == old(self).backlog
                        &&& final(self).recvd_ui == old(self).recvd_ui
                    }
                },
            },
    {
        match ctrl {
            PendingLinkControl::Approve => PendingOutcome::Approve,
            PendingLinkControl::Deny => PendingOutcome::Deny,
            PendingLinkControl::AddCode(new_code) => {
                let matches_last = match &self.last_code {
                    Some(lc) => string_eq(lc, &new_code),
                    None => false,
                };
                if matches_last {
                    PendingOutcome::Approve
                } else {
                    let ghost pre = self.codes@;
                    self.codes.push(new_code);
                    proof {
                        assert(strs_view(self.codes@) =~= strs_view(pre).push(
                            self.codes@.last()@,
                        ));
                    }
                    PendingOutcome::Wait
                }
            },
        }
    }

    /// React to a message from the peer. A known approval code approves the
    /// link at once, without joining the backlog; a wrong one is remembered
    /// and counted, and too many deny it. An interface subscription approves
    /// the link when the one-time interface approval is open. Every other
    /// message joins the backlog, and an overfull backlog denies the link.
    pub fn on_link_message(&mut self, msg: Message, should_approve_ui: bool) -> (r: PendingOutcome)
        ensures
            msgs_view(final(self).backlog@) == (if msg@ matches MessageV::Router(
                RouterMsgV::ApprovalCode(c),
            ) && strs_view(old(self).codes@).contains(c) {
                msgs_view(old(self).backlog@)
            } else {
                msgs_view(old(self).backlog@).push(msg@)
            }),
            strs_view(final(self).codes@) == strs_view(old(self).codes@),
            (match msg@ {
                MessageV::Router(RouterMsgV::ApprovalCode(c)) => {
                    if strs_view(old(self).codes@).contains(c) {
                        r == PendingOutcome::Approve
                    } else if old(self).code_attempts + 1 > MAX_CODE_ATTEMPTS {
                        r == PendingOutcome::Deny
                    } else {
                        &&& (final(self).last_code matches Some(lc) && lc@ == c)
                        &&& final(self).code_attempts == old(self).code_attempts + 1
                        &&& r == (if old(self).backlog@.len() + 1 > MAX_BACKLOG {
                            PendingOutcome::Deny
                        } else {
                            PendingOutcome::Wait
                        })
                    }
                },
                MessageV::Ui(UiMsgV::Subscribe) => {
                    &&& final(self).recvd_ui
                    &&& (should_approve_ui ==> r == PendingOutcome::Approve)
                    &&& (!should_approve_ui ==> r == (if old(self).backlog@.len() + 1 > MAX_BACKLOG {
                        PendingOutcome::Deny
                    } else {
                        PendingOutcome::Wait
                    }))
                },
                _ => {
                    r == (if old(self).backlog@.len() + 1 > MAX_BACKLOG {
                        PendingOutcome::Deny
                    } else {
                        PendingOutcome::Wait
                    })
                },
            }),
    {
        let ghost pre = self.backlog@;
        let mut outcome: Option<PendingOutcome> = None;
        match &msg {
            Message::Router(rm) => {
                match rm {
                    RouterMessage::ApprovalCode(new_code) => {
                        if self.knows_code(new_code) {
                            return PendingOutcome::Approve;
                        } else {
                            self.last_code = Some(new_code.clone());
                            if self.code_attempts == u8::MAX || self.code_attempts + 1
                                > MAX_CODE_ATTEMPTS {
                                outcome = Some(PendingOutcome::Deny);
                            } else {
                                self.code_attempts = self.code_attempts + 1;
                            }
                        }
                    },
                    _ => {},
                }
            },
            Message::Ui(um) => {
                match um {
                    UiMessage::Subscribe => {
                        self.recvd_ui = true;
                        if should_approve_ui {
                            outcome = Some(PendingOutcome::Approve);
                        }
                    },
                    _ => {},
                }
            },
            _ => {},
        }
        let ghost mv = msg@;
        self.backlog.push(msg);
        proof {
            assert(msgs_view(self.backlog@) =~= msgs_view(pre).push(mv));
        }
        match outcome {
            Some(o) => o,
            None => {
                if self.backlog.len() > MAX_BACKLOG {
                    PendingOutcome::Deny
                } else {
                    PendingOutcome::Wait
                }
            },
        }
    }

    /// Take the buffered messages for replay on approval.
    pub fn take_backlog(&mut self) -> (r: Vec<Message>)
        ensures
            msgs_view(r@) == msgs_view(old(self).backlog@),
            final(self).backlog@.len() == 0,
    {
        let mut taken: Vec<Message> = Vec::new();
        core::mem::swap(&mut self.backlog, &mut taken);
        taken
    }
}

/// The mathematical value of a control.
pub enum PendingCtrlV {
    Approve,
    Deny,
    AddCode(Seq<char>),
}

impl View for PendingLinkControl {
    type V = PendingCtrlV;

    open spec fn view(&self) -> PendingCtrlV {
        match self {
            PendingLinkControl::Approve => PendingCtrlV::Approve,
            PendingLinkControl::Deny => PendingCtrlV::Deny,
            PendingLinkControl::AddCode(c) => PendingCtrlV::AddCode(c@),
        }
    }
}

} // verus!
