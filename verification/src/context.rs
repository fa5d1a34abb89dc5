//! The per-transaction mail context: a stage-typed record that accumulates
//! envelope information as the transaction advances, the transaction type
//! fixed during RCPT TO, and the cached DKIM verdict.

use vstd::prelude::*;
use crate::address::Address;

verus! {

/// The stages of a transaction, in their fixed order.
#[derive(Clone, Copy, PartialEq, Eq, Structural, Debug)]
pub enum Stage {
    Connect,
    Helo,
    MailFrom,
    RcptTo,
    Finished,
}

/// The position of a stage in the fixed order.
pub open spec fn stage_index(s: Stage) -> int {
    match s {
        Stage::Connect => 0,
        Stage::Helo => 1,
        Stage::MailFrom => 2,
        Stage::RcptTo => 3,
        Stage::Finished => 4,
    }
}

/// How a transaction was classified during RCPT TO.
pub enum TransactionType {
    /// The sender is foreign; the field holds the recipient domain when that
    /// domain is handled here, and nothing on the relay-denied path.
    Incoming { handled_domain: Option<Vec<u8>> },
    /// The sender is handled here and at least one recipient is foreign.
    Outgoing { domain: Vec<u8> },
    /// Sender and recipient are both handled by the same domain.
    Internal,
}

/// The delivery state of one recipient.
pub enum RcptStatus {
    Waiting,
    Sent { at: u64 },
    HeldBack { errors: Vec<u16> },
    Failed { code: u16 },
}

/// Where one recipient's mail is handed: the remote relay through MX
/// resolution, a fixed forward host, or a local mailbox.
pub enum TransportTag {
    /// Remote SMTP through MX resolution of the recipient's domain.
    Remote,
    /// Remote SMTP to a fixed host.
    Forward { host: Vec<u8> },
    /// A local maildir under the given path.
    Maildir { path: Vec<u8> },
    /// A classic mbox file at the given path.
    MBox { path: Vec<u8> },
}

/// Equality of transport choices, by content.
pub open spec fn same_transport(a: TransportTag, b: TransportTag) -> bool {
    match (a, b) {
        (TransportTag::Remote, TransportTag::Remote) => true,
        (TransportTag::Forward { host: x }, TransportTag::Forward { host: y }) => x@ == y@,
        (TransportTag::Maildir { path: x }, TransportTag::Maildir { path: y }) => x@ == y@,
        (TransportTag::MBox { path: x }, TransportTag::MBox { path: y }) => x@ == y@,
        _ => false,
    }
}

/// One forward path with its delivery state and its transport.
pub struct Recipient {
    pub address: Address,
    pub status: RcptStatus,
    /// How this recipient's copy is delivered; the remote relay unless a
    /// rule chose otherwise.
    pub transport: TransportTag,
}

/// The outcome a DKIM verification settles on.
#[derive(Clone, Copy, PartialEq, Eq, Structural, Debug)]
pub enum DkimStatus {
    Pass,
    Fail,
    Neutral,
    TempError,
    PermError,
    NoSignature,
}

/// The cached result of a DKIM verification, with the signing domain and
/// agent identifiers of the signature that passed.
pub struct DkimVerdict {
    pub status: DkimStatus,
    pub sdid: Vec<u8>,
    pub auid: Vec<u8>,
}

/// Equality of optional byte strings, by content.
pub open spec fn same_opt_bytes(a: Option<Vec<u8>>, b: Option<Vec<u8>>) -> bool {
    match (a, b) {
        (Some(x), Some(y)) => x@ == y@,
        (None, None) => true,
        _ => false,
    }
}

/// Equality of addresses, by content.
pub open spec fn same_address(a: Address, b: Address) -> bool {
    a.local@ == b.local@ && a.domain@ == b.domain@
}

/// Equality of reverse paths, by content.
pub open spec fn same_reverse_path(
    a: Option<Option<Address>>,
    b: Option<Option<Address>>,
) -> bool {
    match (a, b) {
        (Some(Some(x)), Some(Some(y))) => same_address(x, y),
        (Some(None), Some(None)) => true,
        (None, None) => true,
        _ => false,
    }
}

/// Equality of classifications, by content.
pub open spec fn same_txn(a: Option<TransactionType>, b: Option<TransactionType>) -> bool {
    match (a, b) {
        (None, None) => true,
        (Some(TransactionType::Internal), Some(TransactionType::Internal)) => true,
        (
            Some(TransactionType::Outgoing { domain: x }),
            Some(TransactionType::Outgoing { domain: y }),
        ) => x@ == y@,
        (
            Some(TransactionType::Incoming { handled_domain: x }),
            Some(TransactionType::Incoming { handled_domain: y }),
        ) => same_opt_bytes(x, y),
        _ => false,
    }
}

/// The per-transaction record. Fields beyond the reached stage hold their
/// empty values.
pub struct MailContext {
    pub stage: Stage,
    /// The name this server presents, from SNI or configuration.
    pub server_name: Vec<u8>,
    /// Seconds since the epoch at which the connection was accepted.
    pub connect_timestamp: u64,
    /// The identifier of the connection.
    pub connection_uuid: u128,
    /// The client-announced name, once HELO or EHLO was accepted.
    pub helo: Option<Vec<u8>>,
    /// Whether the client announced itself with EHLO.
    pub using_esmtp: bool,
    /// The reverse path once MAIL FROM was accepted; the inner `None` is the
    /// null sender.
    pub reverse_path: Option<Option<Address>>,
    /// The identifier of the message being built, set at MAIL FROM.
    pub message_uuid: Option<u128>,
    /// The forward paths accepted so far, in order of arrival.
    pub forward_paths: Vec<Recipient>,
    /// The classification, computed during RCPT TO and fixed thereafter.
    pub transaction_type: Option<TransactionType>,
    /// The cached DKIM verdict, set by the first verification.
    pub dkim: Option<DkimVerdict>,
    /// How often delivery of this message was already re-attempted.
    pub retry: u64,
}

impl MailContext {
    /// The stage-typed shape: information is present from the stage that
    /// establishes it onward, and absent before.
    pub open spec fn wf(self) -> bool {
        &&& stage_index(self.stage) >= 1 ==> self.helo is Some
        &&& stage_index(self.stage) >= 2 ==> self.reverse_path is Some && self.message_uuid is Some
        &&& stage_index(self.stage) >= 3 ==> self.forward_paths@.len() > 0
            && self.transaction_type is Some
        &&& stage_index(self.stage) <= 1 ==> self.reverse_path is None && self.message_uuid is None
            && self.forward_paths@.len() == 0 && self.transaction_type is None
        &&& stage_index(self.stage) == 2 ==> self.forward_paths@.len() == 0
        &&& match self.reverse_path {
            Some(Some(a)) => a.wf(),
            _ => true,
        }
        &&& forall|i: int| 0 <= i < self.forward_paths@.len()
            ==> (#[trigger] self.forward_paths@[i].address).wf()
    }

    /// The connection-scoped fields never change after `connect`.
    pub open spec fn same_connection(self, other: MailContext) -> bool {
        &&& self.server_name@ == other.server_name@
        &&& self.connect_timestamp == other.connect_timestamp
        &&& self.connection_uuid == other.connection_uuid
    }

    /// A fresh context for an accepted connection.
    pub fn connect(server_name: Vec<u8>, timestamp: u64, uuid: u128) -> (r: MailContext)
        ensures
            r.wf(),
            r.stage == Stage::Connect,
            r.server_name@ == server_name@,
            r.connect_timestamp == timestamp,
            r.connection_uuid == uuid,
            r.helo is None,
            r.dkim is None,
            r.retry == 0,
    {
        MailContext {
            stage: Stage::Connect,
            server_name,
            connect_timestamp: timestamp,
            connection_uuid: uuid,
            helo: None,
            using_esmtp: false,
            reverse_path: None,
            message_uuid: None,
            forward_paths: Vec::new(),
            transaction_type: None,
            dkim: None,
            retry: 0,
        }
    }

    /// Records an accepted HELO or EHLO: any transaction in progress is
    /// dropped and the context stands at the Helo stage.
    pub fn set_helo(&mut self, name: Vec<u8>, esmtp: bool)
        requires
            old(self).wf(),
        ensures
            final(self).wf(),
            final(self).stage == Stage::Helo,
            final(self).helo == Some(name),
            final(self).using_esmtp == esmtp,
            final(self).reverse_path is None,
            final(self).message_uuid is None,
            final(self).forward_paths@.len() == 0,
            final(self).transaction_type is None,
            old(self).same_connection(*final(self)),
            final(self).dkim == old(self).dkim,
            final(self).retry == old(self).retry,
    {
        self.stage = Stage::Helo;
        self.helo = Some(name);
        self.using_esmtp = esmtp;
        self.reverse_path = None;
        self.message_uuid = None;
        self.forward_paths = Vec::new();
        self.transaction_type = None;
    }

    /// Records an accepted MAIL FROM: the reverse path (the null sender is
    /// the inner `None`) and the identifier of the message being built.
    pub fn to_mail_from(&mut self, reverse_path: Option<Address>, message_uuid: u128)
        requires
            old(self).wf(),
            old(self).stage == Stage::Helo,
            match reverse_path {
                Some(a) => a.wf(),
                None => true,
            },
        ensures
            final(self).wf(),
            final(self).stage == Stage::MailFrom,
            final(self).reverse_path == Some(reverse_path),
            final(self).message_uuid == Some(message_uuid),
            final(self).forward_paths@.len() == 0,
            final(self).transaction_type is None,
            final(self).helo == old(self).helo,
            final(self).using_esmtp == old(self).using_esmtp,
            final(self).server_name == old(self).server_name,
            final(self).forward_paths == old(self).forward_paths,
            final(self).transaction_type == old(self).transaction_type,
            old(self).same_connection(*final(self)),
            final(self).dkim == old(self).dkim,
            final(self).retry == old(self).retry,
    {
        self.stage = Stage::MailFrom;
        self.reverse_path = Some(reverse_path);
        self.message_uuid = Some(message_uuid);
    }

    /// Appends an accepted recipient, initially waiting for delivery, and
    /// advances the context to the RcptTo stage.
    pub fn add_forward_path(&mut self, address: Address)
        requires
            old(self).wf(),
            old(self).stage == Stage::MailFrom || old(self).stage == Stage::RcptTo,
            old(self).stage == Stage::RcptTo ==> old(self).transaction_type is Some,
            address.wf(),
        ensures
            final(self).wf() <==> (final(self).transaction_type is Some),
            final(self).stage == Stage::RcptTo,
            final(self).forward_paths@.len() == old(self).forward_paths@.len() + 1,
            forall|i: int|
                0 <= i < old(self).forward_paths@.len() ==> final(self).forward_paths@[i]
                    == old(self).forward_paths@[i],
            final(self).forward_paths@.last().address == address,
            final(self).forward_paths@.last().status is Waiting,
            final(self).forward_paths@.last().transport is Remote,
            final(self).reverse_path == old(self).reverse_path,
            final(self).message_uuid == old(self).message_uuid,
            final(self).transaction_type == old(self).transaction_type,
            final(self).helo == old(self).helo,
            old(self).same_connection(*final(self)),
            final(self).dkim == old(self).dkim,
            final(self).retry == old(self).retry,
    {
        self.forward_paths.push(
            Recipient {
                address,
                status: RcptStatus::Waiting,
                transport: TransportTag::Remote,
            },
        );
        self.stage = Stage::RcptTo;
    }

    /// Points one recipient at another transport, as the delivery rules
    /// do: a fixed forward host, or a local maildir or mbox.
    pub fn set_rcpt_transport(&mut self, i: usize, transport: TransportTag)
        requires
            old(self).wf(),
            i < old(self).forward_paths@.len(),
        ensures
            final(self).wf(),
            final(self).forward_paths@.len() == old(self).forward_paths@.len(),
            same_transport(final(self).forward_paths@[i as int].transport, transport),
            final(self).forward_paths@[i as int].address == old(self).forward_paths@[
                i as int
            ].address,
            final(self).forward_paths@[i as int].status == old(self).forward_paths@[
                i as int
            ].status,
            forall|j: int|
                0 <= j < old(self).forward_paths@.len() && j != i
                    ==> final(self).forward_paths@[j] == old(self).forward_paths@[j],
            final(self).stage == old(self).stage,
            final(self).reverse_path == old(self).reverse_path,
            final(self).message_uuid == old(self).message_uuid,
            final(self).transaction_type == old(self).transaction_type,
            final(self).helo == old(self).helo,
            old(self).same_connection(*final(self)),
            final(self).dkim == old(self).dkim,
            final(self).retry == old(self).retry,
    {
        // The recipient's own address and status must survive the update
        // as the very same values, so the entry is swapped out whole and
        // rebuilt around the new transport.
        let mut rcpt = Recipient {
            address: Address { local: Vec::new(), domain: Vec::new() },
            status: RcptStatus::Waiting,
            transport,
        };
        self.forward_paths.set_and_swap(i, &mut rcpt);
        let restored = Recipient {
            address: rcpt.address,
            status: rcpt.status,
            transport: match &self.forward_paths[i].transport {
                TransportTag::Remote => TransportTag::Remote,
                TransportTag::Forward { host } => TransportTag::Forward { host: host.clone() },
                TransportTag::Maildir { path } => TransportTag::Maildir { path: path.clone() },
                TransportTag::MBox { path } => TransportTag::MBox { path: path.clone() },
            },
        };
        self.forward_paths.set(i, restored);
        proof {
            assert forall|j: int|
                0 <= j < self.forward_paths@.len() implies (
            #[trigger] self.forward_paths@[j].address).wf() by {
                if j != i {
                    assert(self.forward_paths@[j] == old(self).forward_paths@[j]);
                }
            }
        }
    }

    /// Fixes the classification of the transaction.
    pub fn set_transaction_type(&mut self, t: TransactionType)
        requires
            old(self).wf(),
            old(self).stage == Stage::MailFrom || old(self).stage == Stage::RcptTo,
        ensures
            final(self).transaction_type == Some(t),
            final(self).stage == old(self).stage,
            final(self).forward_paths == old(self).forward_paths,
            final(self).reverse_path == old(self).reverse_path,
            final(self).message_uuid == old(self).message_uuid,
            final(self).helo == old(self).helo,
            old(self).same_connection(*final(self)),
            final(self).dkim == old(self).dkim,
            final(self).retry == old(self).retry,
            final(self).wf(),
    {
        self.transaction_type = Some(t);
    }

    /// The second context created when a transaction splits: the envelope so
    /// far with a fresh message identifier and no recipients yet.
    pub fn clone_for_split(&self, message_uuid: u128) -> (r: MailContext)
        requires
            self.wf(),
            self.stage == Stage::MailFrom || self.stage == Stage::RcptTo,
        ensures
            r.wf(),
            r.stage == Stage::MailFrom,
            same_opt_bytes(r.helo, self.helo),
            r.helo is Some <==> self.helo is Some,
            r.using_esmtp == self.using_esmtp,
            same_reverse_path(r.reverse_path, self.reverse_path),
            r.message_uuid == Some(message_uuid),
            r.forward_paths@.len() == 0,
            r.transaction_type is None,
            self.same_connection(r),
            r.dkim is None,
            r.retry == 0,
    {
        let reverse_path: Option<Option<Address>> = match &self.reverse_path {
            Some(Some(a)) => Some(Some(a.duplicate())),
            Some(None) => Some(None),
            None => None,
        };
        let r = MailContext {
            stage: Stage::MailFrom,
            server_name: self.server_name.clone(),
            connect_timestamp: self.connect_timestamp,
            connection_uuid: self.connection_uuid,
            helo: match &self.helo {
                Some(h) => Some(h.clone()),
                None => None,
            },
            using_esmtp: self.using_esmtp,
            reverse_path,
            message_uuid: Some(message_uuid),
            forward_paths: Vec::new(),
            transaction_type: None,
            dkim: None,
            retry: 0,
        };
        r
    }

    /// Replaces the reverse path of a transaction in progress, as the
    /// envelope-rewriting rules do.
    pub fn rewrite_reverse_path(&mut self, reverse_path: Option<Address>)
        requires
            old(self).wf(),
            stage_index(old(self).stage) >= 2,
            old(self).stage != Stage::Finished,
            match reverse_path {
                Some(a) => a.wf(),
                None => true,
            },
        ensures
            final(self).wf(),
            final(self).reverse_path == Some(reverse_path),
            final(self).stage == old(self).stage,
            final(self).forward_paths == old(self).forward_paths,
            final(self).message_uuid == old(self).message_uuid,
            final(self).transaction_type == old(self).transaction_type,
            final(self).helo == old(self).helo,
            old(self).same_connection(*final(self)),
    {
        self.reverse_path = Some(reverse_path);
    }

    /// Removes the first recipient bearing the given address, as the
    /// envelope-rewriting rules do. Removing the last recipient puts the
    /// context back at the MailFrom stage. Returns whether anything was
    /// removed.
    pub fn remove_forward_path(&mut self, address: &Address) -> (r: bool)
        requires
            old(self).wf(),
            old(self).stage == Stage::RcptTo,
        ensures
            final(self).wf(),
            r <==> exists|i: int|
                0 <= i < old(self).forward_paths@.len() && same_address(
                    (#[trigger] old(self).forward_paths@[i]).address,
                    *address,
                ),
            r ==> ({
                let i = choose|i: int|
                    0 <= i < old(self).forward_paths@.len() && same_address(
                        (#[trigger] old(self).forward_paths@[i]).address,
                        *address,
                    ) && forall|j: int|
                        0 <= j < i ==> !same_address(
                            (#[trigger] old(self).forward_paths@[j]).address,
                            *address,
                        );
                &&& final(self).forward_paths@ == old(self).forward_paths@.remove(i)
                &&& final(self).stage == (if old(self).forward_paths@.len() == 1 {
                    Stage::MailFrom
                } else {
                    Stage::RcptTo
                })
            }),
            !r ==> *final(self) == *old(self),
            final(self).reverse_path == old(self).reverse_path,
            final(self).message_uuid == old(self).message_uuid,
            final(self).helo == old(self).helo,
            final(self).using_esmtp == old(self).using_esmtp,
            final(self).transaction_type == old(self).transaction_type,
            final(self).dkim == old(self).dkim,
            final(self).retry == old(self).retry,
            old(self).same_connection(*final(self)),
    {
        let mut i: usize = 0;
        while i < self.forward_paths.len()
            invariant
                *self == *old(self),
                self.wf(),
                self.stage == Stage::RcptTo,
                i <= self.forward_paths@.len(),
                forall|j: int|
                    0 <= j < i ==> !same_address(
                        (#[trigger] self.forward_paths@[j]).address,
                        *address,
                    ),
            decreases self.forward_paths@.len() - i,
        {
            let same = crate::address::bytes_eq(&self.forward_paths[i].address.local, &address.local)
                && crate::address::bytes_eq(&self.forward_paths[i].address.domain, &address.domain);
            if same {
                let ghost before = *self;
                let ghost ci = i as int;
                proof {
                    assert(same_address(before.forward_paths@[ci].address, *address));
                    assert(exists|k: int|
                        0 <= k < before.forward_paths@.len() && same_address(
                            (#[trigger] before.forward_paths@[k]).address,
                            *address,
                        ) && forall|j: int|
                            0 <= j < k ==> !same_address(
                                (#[trigger] before.forward_paths@[j]).address,
                                *address,
                            )) by {
                        assert(0 <= ci < before.forward_paths@.len() && same_address(
                            before.forward_paths@[ci].address,
                            *address,
                        ) && forall|j: int|
                            0 <= j < ci ==> !same_address(
                                (#[trigger] before.forward_paths@[j]).address,
                                *address,
                            ));
                    }
                }
                self.forward_paths.remove(i);
                if self.forward_paths.len() == 0 {
                    self.stage = Stage::MailFrom;
                }
                proof {
                    let k = choose|k: int|
                        0 <= k < before.forward_paths@.len() && same_address(
                            (#[trigger] before.forward_paths@[k]).address,
                            *address,
                        ) && forall|j: int|
                            0 <= j < k ==> !same_address(
                                (#[trigger] before.forward_paths@[j]).address,
                                *address,
                            );
                    assert(!(k < ci) && !(ci < k));
                    assert(self.forward_paths@ =~= before.forward_paths@.remove(ci));
                    assert forall|j: int|
                        0 <= j < self.forward_paths@.len() implies (
                    #[trigger] self.forward_paths@[j].address).wf() by {
                        if j < ci {
                            assert(self.forward_paths@[j] == before.forward_paths@[j]);
                        } else {
                            assert(self.forward_paths@[j] == before.forward_paths@[j + 1]);
                        }
                    }
                }
                return true;
            }
            i = i + 1;
        }
        false
    }

    /// RSET: drops the mail transaction. The HELO announcement and the
    /// connection fields are preserved.
    pub fn reset(&mut self)
        requires
            old(self).wf(),
        ensures
            final(self).wf(),
            final(self).stage == if old(self).helo is Some {
                Stage::Helo
            } else {
                Stage::Connect
            },
            final(self).helo == old(self).helo,
            final(self).reverse_path is None,
            final(self).message_uuid is None,
            final(self).forward_paths@.len() == 0,
            final(self).transaction_type is None,
            old(self).same_connection(*final(self)),
    {
        self.stage = if self.helo.is_some() {
            Stage::Helo
        } else {
            Stage::Connect
        };
        self.reverse_path = None;
        self.message_uuid = None;
        self.forward_paths = Vec::new();
        self.transaction_type = None;
        self.dkim = None;
    }

    /// After a TLS handshake or a completed SASL exchange the SMTP session
    /// starts over: the client must announce itself again.
    pub fn reset_to_connect(&mut self)
        requires
            old(self).wf(),
        ensures
            final(self).wf(),
            final(self).stage == Stage::Connect,
            final(self).helo is None,
            final(self).reverse_path is None,
            final(self).message_uuid is None,
            final(self).forward_paths@.len() == 0,
            final(self).transaction_type is None,
            old(self).same_connection(*final(self)),
    {
        self.stage = Stage::Connect;
        self.helo = None;
        self.reverse_path = None;
        self.message_uuid = None;
        self.forward_paths = Vec::new();
        self.transaction_type = None;
        self.dkim = None;
    }

    /// A deep copy of the whole record; recipient states are carried over.
    pub fn snapshot(&self) -> (r: MailContext)
        ensures
            r.stage == self.stage,
            self.same_connection(r),
            same_opt_bytes(r.helo, self.helo),
            r.helo is Some <==> self.helo is Some,
            r.using_esmtp == self.using_esmtp,
            same_reverse_path(r.reverse_path, self.reverse_path),
            r.reverse_path is Some <==> self.reverse_path is Some,
            r.message_uuid == self.message_uuid,
            r.forward_paths@.len() == self.forward_paths@.len(),
            forall|i: int|
                0 <= i < self.forward_paths@.len() ==> same_address(
                    (#[trigger] r.forward_paths@[i]).address,
                    self.forward_paths@[i].address,
                ) && r.forward_paths@[i].status is Waiting == self.forward_paths@[i].status
                    is Waiting,
            r.transaction_type is Some <==> self.transaction_type is Some,
            same_txn(r.transaction_type, self.transaction_type),
            r.retry == self.retry,
            self.wf() ==> r.wf(),
    {
        let reverse_path: Option<Option<Address>> = match &self.reverse_path {
            Some(Some(a)) => Some(Some(a.duplicate())),
            Some(None) => Some(None),
            None => None,
        };
        let mut forward_paths: Vec<Recipient> = Vec::new();
        let mut i: usize = 0;
        while i < self.forward_paths.len()
            invariant
                i <= self.forward_paths@.len(),
                forward_paths@.len() == i,
                forall|j: int|
                    0 <= j < i ==> same_address(
                        (#[trigger] forward_paths@[j]).address,
                        self.forward_paths@[j].address,
                    ) && (forward_paths@[j].status is Waiting == self.forward_paths@[j].status
                        is Waiting) && forward_paths@[j].address.wf()
                        == self.forward_paths@[j].address.wf(),
            decreases self.forward_paths@.len() - i,
        {
            let rcpt = &self.forward_paths[i];
            let status = match &rcpt.status {
                RcptStatus::Waiting => RcptStatus::Waiting,
                RcptStatus::Sent { at } => RcptStatus::Sent { at: *at },
                RcptStatus::HeldBack { errors } => RcptStatus::HeldBack { errors: errors.clone() },
                RcptStatus::Failed { code } => RcptStatus::Failed { code: *code },
            };
            let transport = match &rcpt.transport {
                TransportTag::Remote => TransportTag::Remote,
                TransportTag::Forward { host } => TransportTag::Forward { host: host.clone() },
                TransportTag::Maildir { path } => TransportTag::Maildir { path: path.clone() },
                TransportTag::MBox { path } => TransportTag::MBox { path: path.clone() },
            };
            forward_paths.push(Recipient { address: rcpt.address.duplicate(), status, transport });
            i = i + 1;
        }
        let transaction_type: Option<TransactionType> = match &self.transaction_type {
            Some(TransactionType::Internal) => Some(TransactionType::Internal),
            Some(TransactionType::Outgoing { domain }) => Some(
                TransactionType::Outgoing { domain: domain.clone() },
            ),
            Some(TransactionType::Incoming { handled_domain: Some(d) }) => Some(
                TransactionType::Incoming { handled_domain: Some(d.clone()) },
            ),
            Some(TransactionType::Incoming { handled_domain: None }) => Some(
                TransactionType::Incoming { handled_domain: None },
            ),
            None => None,
        };
        let dkim: Option<DkimVerdict> = match &self.dkim {
            Some(v) => Some(
                DkimVerdict { status: v.status, sdid: v.sdid.clone(), auid: v.auid.clone() },
            ),
            None => None,
        };
        MailContext {
            stage: self.stage,
            server_name: self.server_name.clone(),
            connect_timestamp: self.connect_timestamp,
            connection_uuid: self.connection_uuid,
            helo: match &self.helo {
                Some(h) => Some(h.clone()),
                None => None,
            },
            using_esmtp: self.using_esmtp,
            reverse_path,
            message_uuid: self.message_uuid,
            forward_paths,
            transaction_type,
            dkim,
            retry: self.retry,
        }
    }

    /// Freezes the context once the message is ingested.
    pub fn to_finished(&mut self)
        requires
            old(self).wf(),
            old(self).stage == Stage::RcptTo,
        ensures
            final(self).wf(),
            final(self).stage == Stage::Finished,
            final(self).forward_paths == old(self).forward_paths,
            final(self).reverse_path == old(self).reverse_path,
            final(self).message_uuid == old(self).message_uuid,
            final(self).transaction_type == old(self).transaction_type,
            final(self).helo == old(self).helo,
            old(self).same_connection(*final(self)),
            final(self).dkim == old(self).dkim,
    {
        self.stage = Stage::Finished;
    }
}

} // verus!
