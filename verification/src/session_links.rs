//! The links of a session: how they are allocated, attached and detached, and how transfers and
//! dispositions find them.

use vstd::prelude::*;

use crate::definitions::{
    DeliveryNumber, DeliveryTag, Handle, InputHandle, OutputHandle, Payload, ReceiverSettleMode,
};
use crate::errors::{AllocLinkError, LinkRelayError, SessionInnerError, SessionStopReason};
use crate::flow_state;
use crate::frame::{LinkFrame, SessionFrame, SessionFrameBody};
use crate::handles;
use crate::ordered_map;
use crate::performatives::{Attach, Detach, Disposition, Transfer};
use crate::receive_window::{self, WindowView};
use crate::relay::{self, Forwarded, LinkRelay, RelayView};
use crate::session::{self, relay_view, Session, SessionState, SessionView};

verus! {

/// Why no link can be allocated in a session as it is: it is not mapped.
pub open spec fn not_mapped(session: SessionView) -> Option<AllocLinkError> {
    if session.local_state == SessionState::Mapped {
        None
    } else {
        Some(
            match session.session_stop_reason {
                Some(reason) => AllocLinkError::SessionStopped(reason),
                None => if session.local_state == SessionState::EndSent || session.local_state
                    == SessionState::EndReceived || session.local_state
                    == SessionState::Discarding {
                    AllocLinkError::SessionStopped(SessionStopReason::Ended)
                } else {
                    AllocLinkError::SessionNotMapped
                },
            },
        )
    }
}

/// Why a link of this name is not allocated.
pub open spec fn allocation_refused(session: SessionView, name: Seq<char>) -> Option<
    AllocLinkError,
> {
    if not_mapped(session) is Some {
        not_mapped(session)
    } else if ordered_map::has(session.links_by_name, name) {
        Some(AllocLinkError::DuplicatedLinkName)
    } else {
        None
    }
}

/// The handle that is allocated next.
pub open spec fn allocated_handle(session: SessionView) -> OutputHandle {
    OutputHandle(session.next_handle as u32)
}

/// A session after a link was allocated, the handle that comes next aside.
pub open spec fn after_allocation(
    session: SessionView,
    name: Seq<char>,
    relay: Option<RelayView<OutputHandle>>,
    next_handle: usize,
) -> SessionView {
    SessionView {
        names: session.names.insert(session.next_handle, name),
        next_handle,
        links_by_name: ordered_map::inserted(session.links_by_name, name, relay),
        ..session
    }
}

/// A session after a handle was given back.
pub open spec fn after_deallocation(session: SessionView, handle: OutputHandle) -> SessionView {
    let key = handle.0 as usize;
    if session.names.contains_key(key) {
        SessionView {
            names: session.names.remove(key),
            next_handle: key,
            links_by_name: ordered_map::removed(session.links_by_name, session.names[key]),
            ..session
        }
    } else {
        session
    }
}

/// A link that the peer attached, on its way to hear of it.
#[derive(Debug)]
pub struct PendingAttach {
    /// What names the link at the peer.
    pub input_handle: InputHandle,
    /// The link.
    pub relay: LinkRelay<OutputHandle>,
    /// The frame for the link.
    pub frame: LinkFrame,
}

/// The relay of a link that the peer attached: a sender learns when its receiver settles.
pub open spec fn attached(
    relay: RelayView<OutputHandle>,
    mode: ReceiverSettleMode,
) -> RelayView<OutputHandle> {
    match relay {
        RelayView::Sender { output_handle, unsettled, .. } => RelayView::Sender {
            output_handle,
            unsettled,
            receiver_settle_mode: mode,
        },
        other => other,
    }
}

/// A session once a transfer was counted: the number of the next one goes up, and the peer may
/// send one less.
pub open spec fn transfer_counted(session: SessionView) -> SessionView {
    SessionView {
        next_incoming_id: flow_state::advanced(session.next_incoming_id, 1),
        remote_outgoing_window: session::one_less(session.remote_outgoing_window),
        ..session
    }
}

/// A session with one slot of its receive window taken.
pub open spec fn slot_taken(session: SessionView) -> SessionView {
    SessionView {
        receive_window: WindowView {
            held: (session.receive_window.held + 1) as u32,
            ..session.receive_window
        },
        ..session
    }
}

/// A session that took one slot and released it at once.
pub open spec fn slot_released(session: SessionView) -> SessionView {
    SessionView {
        receive_window: WindowView {
            released: receive_window::wrapping_next(session.receive_window.released),
            ..session.receive_window
        },
        ..session
    }
}

/// A session with another state of one link.
pub open spec fn with_link(
    session: SessionView,
    key: u32,
    relay: RelayView<OutputHandle>,
) -> SessionView {
    SessionView { links: session.links.insert(key, relay), ..session }
}

/// A session that knows the delivery of an incoming transfer by its number.
pub open spec fn delivery_known(
    session: SessionView,
    input_handle: InputHandle,
    identity: Option<(DeliveryNumber, Seq<u8>)>,
) -> SessionView {
    match identity {
        None => session,
        Some((delivery_id, tag)) => SessionView {
            incoming_deliveries: session.incoming_deliveries.insert(
                delivery_id,
                (input_handle, tag),
            ),
            ..session
        },
    }
}

/// A link that the peer detached.
#[derive(Debug)]
pub struct DetachedLink {
    /// The link.
    pub relay: LinkRelay<OutputHandle>,
    /// The frame for the link.
    pub frame: LinkFrame,
    /// Whether the peer detached on its own, so that an answer is due.
    pub remote_initiated: bool,
}

impl DetachedLink {
    /// The detach that answers the peer, where an answer is due. `closed` is what the peer said.
    pub fn reply(&self, closed: bool) -> (reply: Option<Detach>)
        ensures
            reply == (if self.remote_initiated {
                Some(Detach { handle: Handle(self.relay@.handle().0), closed, error: None })
            } else {
                None
            }),
    {
        if self.remote_initiated {
            Some(Detach { handle: Handle(self.relay.output_handle().0), closed, error: None })
        } else {
            None
        }
    }
}

impl Session {
    /// Allocates a handle for a link under a name that is not in use.
    pub fn allocate_link(
        &mut self,
        link_name: String,
        link_relay: Option<LinkRelay<()>>,
    ) -> (result: Result<OutputHandle, AllocLinkError>)
        ensures
            match allocation_refused(old(self)@, link_name@) {
                Some(error) => {
                    &&& result == Err::<OutputHandle, AllocLinkError>(error)
                    &&& final(self)@ == old(self)@
                },
                None => {
                    let handle = allocated_handle(old(self)@);
                    &&& result == Ok::<OutputHandle, AllocLinkError>(handle)
                    &&& final(self)@ == after_allocation(
                        old(self)@,
                        link_name@,
                        match link_relay {
                            None => None,
                            Some(relay) => Some(relay@.named(handle)),
                        },
                        final(self)@.next_handle,
                    )
                    &&& !final(self)@.names.contains_key(final(self)@.next_handle)
                },
            },
    {
        match self.local_state {
            SessionState::Mapped => {},
            _ => {
                return Err(
                    match self.session_stop_reason {
                        Some(reason) => AllocLinkError::SessionStopped(reason),
                        None => match self.local_state {
                            SessionState::EndSent
                            | SessionState::EndReceived
                            | SessionState::Discarding => AllocLinkError::SessionStopped(
                                SessionStopReason::Ended,
                            ),
                            _ => AllocLinkError::SessionNotMapped,
                        },
                    },
                );
            },
        }
        let ghost said = |relay: Option<LinkRelay<OutputHandle>>| relay_view(relay);
        proof {
            ordered_map::lemma_mapped(self.link_by_name@, said, link_name@, None);
        }
        if self.link_by_name.contains_key(&link_name) {
            return Err(AllocLinkError::DuplicatedLinkName);
        }
        let key = handles::insert_name(&mut self.link_name_by_output_handle, link_name.clone());
        let handle = OutputHandle(key as u32);
        let value = match link_relay {
            None => None,
            Some(relay) => Some(relay.with_output_handle(handle)),
        };
        proof {
            ordered_map::lemma_mapped(self.link_by_name@, said, link_name@, value);
        }
        self.link_by_name.insert(link_name, value);
        Ok(handle)
    }

    /// Allocates a handle for a link that the peer attached first.
    pub fn allocate_incoming_link(
        &mut self,
        link_name: String,
        link_relay: LinkRelay<()>,
        input_handle: InputHandle,
    ) -> (result: Result<OutputHandle, AllocLinkError>)
        ensures
            match allocation_refused(old(self)@, link_name@) {
                Some(error) => {
                    &&& result == Err::<OutputHandle, AllocLinkError>(error)
                    &&& final(self)@ == old(self)@
                },
                None => {
                    let handle = allocated_handle(old(self)@);
                    &&& result == Ok::<OutputHandle, AllocLinkError>(handle)
                    &&& final(self)@ == with_link(
                        after_allocation(
                            old(self)@,
                            link_name@,
                            None,
                            final(self)@.next_handle,
                        ),
                        input_handle.0,
                        link_relay@.named(handle),
                    )
                    &&& !final(self)@.names.contains_key(final(self)@.next_handle)
                },
            },
    {
        broadcast use vstd::std_specs::hash::group_hash_axioms;

        match self.allocate_link(link_name, None) {
            Err(error) => Err(error),
            Ok(output_handle) => {
                let value = link_relay.with_output_handle(output_handle);
                proof {
                    session::lemma_relay_views(self.link_by_input_handle@, input_handle.0, value);
                }
                self.link_by_input_handle.insert(input_handle.0, value);
                Ok(output_handle)
            },
        }
    }

    /// Gives the handle of a link back, and its name with it. Says whether the handle was in use.
    pub fn deallocate_link(&mut self, output_handle: OutputHandle) -> (known: bool)
        ensures
            known == old(self)@.names.contains_key(output_handle.0 as usize),
            final(self)@ == after_deallocation(old(self)@, output_handle),
    {
        let ghost said = |relay: Option<LinkRelay<OutputHandle>>| relay_view(relay);
        match handles::remove_name(
            &mut self.link_name_by_output_handle,
            output_handle.0 as usize,
        ) {
            None => false,
            Some(name) => {
                proof {
                    ordered_map::lemma_mapped(self.link_by_name@, said, name@, None);
                }
                let _ = self.link_by_name.swap_remove(&name);
                true
            },
        }
    }

    /// Finds the link that the peer attaches. It leaves its name, and is attached once it was
    /// handed the frame.
    pub fn on_incoming_attach(&mut self, attach: Attach) -> (result: Result<
        PendingAttach,
        SessionInnerError,
    >)
        ensures
            match ordered_map::value_of(old(self)@.links_by_name, attach.name@) {
                None => {
                    &&& result == Err::<PendingAttach, SessionInnerError>(
                        SessionInnerError::RemoteAttachingLinkNameNotFound,
                    )
                    &&& final(self)@ == old(self)@
                },
                Some(None) => {
                    &&& result == Err::<PendingAttach, SessionInnerError>(
                        SessionInnerError::HandleInUse,
                    )
                    &&& final(self)@ == old(self)@
                },
                Some(Some(link)) => {
                    &&& result matches Ok(pending)
                    &&& pending.input_handle == InputHandle(attach.handle.0)
                    &&& pending.relay@ == attached(link, attach.rcv_settle_mode)
                    &&& pending.frame == LinkFrame::Attach(attach)
                    &&& final(self)@ == (SessionView {
                        links_by_name: ordered_map::replaced(
                            old(self)@.links_by_name,
                            attach.name@,
                            None,
                        ),
                        ..old(self)@
                    })
                },
            },
            result matches Ok(pending) ==> {
                &&& ordered_map::value_of(old(self)@.links_by_name, attach.name@) is Some
                &&& ordered_map::value_of(final(self)@.links_by_name, attach.name@) == Some(
                    None::<RelayView<OutputHandle>>,
                )
                &&& pending.relay@.handle() == (ordered_map::value_of(
                    old(self)@.links_by_name,
                    attach.name@,
                )->0)->0.handle()
            },
            result is Err ==> final(self)@ == old(self)@,
            final(self)@.links == old(self)@.links,
    {
        let ghost said = |relay: Option<LinkRelay<OutputHandle>>| relay_view(relay);
        proof {
            ordered_map::lemma_mapped(self.link_by_name@, said, attach.name@, None);
            ordered_map::lemma_find(self.link_by_name@, attach.name@);
        }
        let at = match self.link_by_name.get_index_of(&attach.name) {
            None => return Err(SessionInnerError::RemoteAttachingLinkNameNotFound),
            Some(at) => at,
        };
        let ghost before = self.link_by_name@;
        let taken = self.link_by_name.value_mut(at).take();
        proof {
            assert(self.link_by_name@ == ordered_map::replaced(before, attach.name@, None));
            if taken is None {
                assert(self.link_by_name@ =~= before);
            }
            let entries = old(self)@.links_by_name;
            let place = ordered_map::find(entries, attach.name@);
            ordered_map::lemma_find(entries, attach.name@);
            if let Some(i) = place {
                ordered_map::lemma_found(
                    ordered_map::replaced(entries, attach.name@, None),
                    attach.name@,
                    i as int,
                );
            }
        }
        match taken {
            None => Err(SessionInnerError::HandleInUse),
            Some(relay) => {
                let relay = match relay {
                    LinkRelay::Sender { output_handle, unsettled, .. } => LinkRelay::Sender {
                        output_handle,
                        unsettled,
                        receiver_settle_mode: attach.rcv_settle_mode,
                    },
                    other => other,
                };
                Ok(
                    PendingAttach {
                        input_handle: InputHandle(attach.handle.0),
                        relay,
                        frame: LinkFrame::Attach(attach),
                    },
                )
            },
        }
    }

    /// Takes down that a link was handed the attach of the peer, or that it is gone.
    pub fn attach_delivered(
        &mut self,
        input_handle: InputHandle,
        relay: LinkRelay<OutputHandle>,
        delivered: bool,
    ) -> (result: Result<(), SessionInnerError>)
        ensures
            delivered ==> {
                &&& result == Ok::<(), SessionInnerError>(())
                &&& final(self)@ == with_link(old(self)@, input_handle.0, relay@)
            },
            !delivered ==> {
                &&& result == Err::<(), SessionInnerError>(SessionInnerError::UnattachedHandle)
                &&& final(self)@ == old(self)@
            },
    {
        broadcast use vstd::std_specs::hash::group_hash_axioms;

        if !delivered {
            return Err(SessionInnerError::UnattachedHandle);
        }
        proof {
            session::lemma_relay_views(self.link_by_input_handle@, input_handle.0, relay);
        }
        self.link_by_input_handle.insert(input_handle.0, relay);
        Ok(())
    }

    /// Takes a transfer in, where the receive window has a slot for it, and routes it to its link.
    /// The slot of one that is refused is free again.
    pub fn on_incoming_transfer(&mut self, transfer: Transfer, payload: Payload) -> (result: Result<
        Forwarded,
        SessionInnerError,
    >)
        ensures
            ({
                let counted = transfer_counted(old(self)@);
                let key = transfer.handle.0;
                if counted.receive_window.held >= counted.receive_window.maximum {
                    &&& result == Err::<Forwarded, SessionInnerError>(
                        SessionInnerError::WindowViolation,
                    )
                    &&& final(self)@ == counted
                } else if !counted.links.contains_key(key) {
                    &&& result == Err::<Forwarded, SessionInnerError>(
                        SessionInnerError::UnattachedHandle,
                    )
                    &&& final(self)@ == slot_released(counted)
                } else {
                    let outcome = relay::transferred(counted.links[key], transfer);
                    match outcome.result {
                        Err(error) => {
                            &&& result == Err::<Forwarded, SessionInnerError>(
                                <SessionInnerError as vstd::std_specs::convert::FromSpec<
                                    LinkRelayError,
                                >>::from_spec(error),
                            )
                            &&& final(self)@ == with_link(
                                slot_released(counted),
                                key,
                                outcome.relay,
                            )
                        },
                        Ok(identity) => {
                            &&& final(self)@ == with_link(slot_taken(counted), key, outcome.relay)
                            &&& result matches Ok(forwarded)
                            &&& forwarded.identity == identity
                            &&& forwarded.frame matches LinkFrame::Transfer {
                                input_handle,
                                performative,
                                payload: carried,
                                window_slot,
                                queue_slot,
                            }
                            &&& input_handle == InputHandle(key)
                            &&& performative == transfer
                            &&& carried == payload
                            &&& window_slot is Some
                            &&& queue_slot is None
                        },
                    }
                }
            }),
            old(self)@.receive_window.held == old(self)@.receive_window.maximum <==> result
                == Err::<Forwarded, SessionInnerError>(SessionInnerError::WindowViolation),
            result is Ok ==> final(self)@.receive_window.held == old(self)@.receive_window.held + 1,
            result is Err ==> final(self)@.receive_window.held == old(self)@.receive_window.held,
            final(self)@.receive_window.maximum == old(self)@.receive_window.maximum,
            final(self)@.next_incoming_id == (old(self)@.next_incoming_id + 1) % 0x1_0000_0000,
            result is Ok ==> old(self)@.links.contains_key(transfer.handle.0),
            final(self)@.links.dom() == old(self)@.links.dom(),
            final(self)@.incoming_deliveries == old(self)@.incoming_deliveries,
            final(self)@.outgoing_deliveries == old(self)@.outgoing_deliveries,
    {
        broadcast use vstd::std_specs::hash::group_hash_axioms;

        self.next_incoming_id = self.next_incoming_id.wrapping_add(1);
        self.remote_outgoing_window = self.remote_outgoing_window.saturating_sub(1);
        let slot = match self.receive_window.reserve() {
            None => return Err(SessionInnerError::WindowViolation),
            Some(slot) => slot,
        };
        let key = transfer.handle.0;
        let mut link = match self.link_by_input_handle.remove(&key) {
            None => {
                self.receive_window.release(slot);
                assert(self@.links =~= old(self)@.links);
                return Err(SessionInnerError::UnattachedHandle);
            },
            Some(link) => link,
        };
        let ghost links = old(self).link_by_input_handle@;
        let result = link.on_incoming_transfer(transfer, payload, Some(slot));
        proof {
            session::lemma_relay_views(links, key, link);
            assert(links.remove(key).insert(key, link) =~= links.insert(key, link));
        }
        self.link_by_input_handle.insert(key, link);
        match result {
            Ok(forwarded) => Ok(forwarded),
            Err(refused) => {
                if let Some(slot) = refused.window_slot {
                    self.receive_window.release(slot);
                }
                Err(SessionInnerError::from(refused.error))
            },
        }
    }

    /// Takes down that a link was handed a transfer: the delivery that it begins is known by its
    /// number from now on. No disposition is due: settlement is left to the link.
    pub fn transfer_delivered(
        &mut self,
        input_handle: InputHandle,
        identity: Option<(DeliveryNumber, DeliveryTag)>,
    ) -> (result: Result<Option<Disposition>, SessionInnerError>)
        ensures
            result == Ok::<Option<Disposition>, SessionInnerError>(None),
            final(self)@ == delivery_known(
                old(self)@,
                input_handle,
                match identity {
                    None => None,
                    Some((delivery_id, delivery_tag)) => Some((delivery_id, delivery_tag@)),
                },
            ),
    {
        broadcast use vstd::std_specs::hash::group_hash_axioms;

        if let Some((delivery_id, delivery_tag)) = identity {
            let delivery = (input_handle, delivery_tag);
            proof {
                session::lemma_delivery_views(self.incoming_deliveries@, delivery_id, delivery);
            }
            self.incoming_deliveries.insert(delivery_id, delivery);
        }
        Ok(None)
    }

    /// Takes down that a link is gone and did not take a transfer: its slot is free again.
    pub fn transfer_undelivered(&mut self, frame: LinkFrame) -> (error: SessionInnerError)
        requires
            frame matches LinkFrame::Transfer { window_slot: Some(_), .. } ==> old(
                self)@.receive_window.held > 0,
        ensures
            error == SessionInnerError::UnattachedHandle,
            final(self)@ == (match frame {
                LinkFrame::Transfer { window_slot: Some(_), .. } => SessionView {
                    receive_window: WindowView {
                        held: (old(self)@.receive_window.held - 1) as u32,
                        released: receive_window::wrapping_next(
                            old(self)@.receive_window.released,
                        ),
                        ..old(self)@.receive_window
                    },
                    ..old(self)@
                },
                _ => old(self)@,
            }),
            frame matches LinkFrame::Transfer { window_slot: Some(_), .. } ==> final(
                self)@.receive_window.held + 1 == old(self)@.receive_window.held && final(
                self)@.receive_window.released == (old(self)@.receive_window.released + 1)
                % 0x1_0000_0000,
            !(frame matches LinkFrame::Transfer { window_slot: Some(_), .. }) ==> final(self)@
                == old(self)@,
    {
        if let LinkFrame::Transfer { window_slot: Some(slot), .. } = frame {
            self.receive_window.release(slot);
        }
        SessionInnerError::UnattachedHandle
    }

    /// Takes a detach of the peer. A link that is gone is not detached again: both ends closed it
    /// at the same time, and the second detach is dropped.
    pub fn on_incoming_detach(&mut self, detach: Detach) -> (link: Option<DetachedLink>)
        ensures
            ({
                let key = detach.handle.0;
                if old(self)@.links.contains_key(key) {
                    let relay = old(self)@.links[key];
                    let output = relay.handle().0;
                    &&& link matches Some(detached)
                    &&& detached.relay@ == relay
                    &&& detached.frame == LinkFrame::Detach(detach)
                    &&& detached.remote_initiated == !old(self)@.close_pending.contains(output)
                    &&& final(self)@ == (SessionView {
                        links: old(self)@.links.remove(key),
                        close_pending: old(self)@.close_pending.remove(output),
                        ..old(self)@
                    })
                } else {
                    &&& link is None
                    &&& final(self)@ == old(self)@
                }
            }),
            link is Some <==> old(self)@.links.contains_key(detach.handle.0),
            !final(self)@.links.contains_key(detach.handle.0),
            final(self)@.names == old(self)@.names,
            link matches Some(detached) ==> {
                &&& detached.remote_initiated <==> !old(self)@.close_pending.contains(
                    detached.relay@.handle().0,
                )
                &&& !final(self)@.close_pending.contains(detached.relay@.handle().0)
            },
    {
        broadcast use vstd::std_specs::hash::group_hash_axioms;

        let key = detach.handle.0;
        let ghost links = self.link_by_input_handle@;
        match self.link_by_input_handle.remove(&key) {
            None => {
                assert(self@.links =~= old(self)@.links);
                None
            },
            Some(relay) => {
                let output_handle = relay.output_handle();
                proof {
                    session::lemma_relay_views(links, key, relay);
                }
                let pending = self.close_pending.remove(&output_handle.0);
                assert(self@.close_pending =~= old(self)@.close_pending.remove(output_handle.0));
                let frame = relay.on_incoming_detach(detach);
                Some(DetachedLink { relay, frame, remote_initiated: !pending })
            },
        }
    }

    /// The single outbound path for detach frames. A detach that the link sent itself waits for
    /// the answer of the peer, and is not repeated where both ends closed at the same time.
    pub fn on_outgoing_detach(&mut self, detach: Detach, expects_echo: bool) -> (frame: Option<
        SessionFrame,
    >)
        ensures
            ({
                let handle = OutputHandle(detach.handle.0);
                let known = old(self)@.names.contains_key(handle.0 as usize);
                let after = after_deallocation(old(self)@, handle);
                if expects_echo && !known {
                    &&& frame is None
                    &&& final(self)@ == after
                } else {
                    &&& frame == Some(
                        session::plain_frame(old(self)@, SessionFrameBody::Detach(detach)),
                    )
                    &&& final(self)@ == (if expects_echo {
                        SessionView { close_pending: after.close_pending.insert(handle.0), ..after }
                    } else {
                        after
                    })
                }
            }),
            frame is None <==> expects_echo && !old(self)@.names.contains_key(
                detach.handle.0 as usize,
            ),
            frame matches Some(frame) ==> frame.body == SessionFrameBody::Detach(detach),
            !final(self)@.names.contains_key(detach.handle.0 as usize),
            frame is Some && expects_echo ==> final(self)@.close_pending.contains(detach.handle.0),
            !expects_echo ==> final(self)@.close_pending == old(self)@.close_pending,
            final(self)@.links == old(self)@.links,
    {
        broadcast use vstd::std_specs::hash::group_hash_axioms;

        let handle = OutputHandle(detach.handle.0);
        let deallocated = self.deallocate_link(handle);
        if expects_echo {
            if !deallocated {
                return None;
            }
            self.close_pending.insert(handle.0);
        }
        Some(SessionFrame::new(self.outgoing_channel, SessionFrameBody::Detach(detach)))
    }
}

} // verus!
