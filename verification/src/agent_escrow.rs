use vstd::prelude::*;

use crate::shared::{Address, Error, PaymentRecord, PaymentStatus, Transfer, net_flow_in};

verus! {

// ---------------------------------------------------------------------------
// The abstract escrow ledger
// ---------------------------------------------------------------------------

/// The record of `s` whose id is `id`, searched from the most recent one.
pub open spec fn lookup(s: Seq<PaymentRecord>, id: Seq<char>) -> Option<PaymentRecord>
    decreases s.len(),
{
    if s.len() == 0 {
        None
    } else if s.last().id@ == id {
        Some(s.last())
    } else {
        lookup(s.drop_last(), id)
    }
}

/// No two records share an id.
pub open spec fn ids_distinct(s: Seq<PaymentRecord>) -> bool {
    forall|i: int, j: int| 0 <= i < j < s.len() ==> s[i].id@ != s[j].id@
}

/// `r` with its status replaced by `status`.
pub open spec fn with_status(r: PaymentRecord, status: PaymentStatus) -> PaymentRecord {
    PaymentRecord {
        id: r.id,
        sender: r.sender,
        recipient: r.recipient,
        amount: r.amount,
        asset: r.asset,
        status,
        created_at: r.created_at,
        expires_at: r.expires_at,
    }
}

/// The records of `s`, with the status of those whose id is `id` replaced by `status`.
pub open spec fn settle(s: Seq<PaymentRecord>, id: Seq<char>, status: PaymentStatus) -> Seq<PaymentRecord> {
    s.map_values(|r: PaymentRecord| if r.id@ == id { with_status(r, status) } else { r })
}

/// What a record contributes to the funds of `asset` held in escrow.
pub open spec fn held_by(r: PaymentRecord, asset: Seq<char>) -> int {
    if r.status == PaymentStatus::Pending && r.asset@ == asset {
        r.amount as int
    } else {
        0
    }
}

/// The sum of the amounts of the pending records of `s` in `asset`.
pub open spec fn pending_total(s: Seq<PaymentRecord>, asset: Seq<char>) -> int
    decreases s.len(),
{
    if s.len() == 0 {
        0
    } else {
        pending_total(s.drop_last(), asset) + held_by(s.last(), asset)
    }
}

/// A payment only moves forward: a record that appears is pending, a stored
/// record keeps every field, except that a pending one may become released
/// or refunded, and no record disappears.
pub open spec fn moves_forward(before: Option<PaymentRecord>, after: Option<PaymentRecord>) -> bool {
    match before {
        None => after matches Some(r) ==> r.status == PaymentStatus::Pending,
        Some(r) => after == Some(r) || (r.status == PaymentStatus::Pending && (after == Some(
            with_status(r, PaymentStatus::Released),
        ) || after == Some(with_status(r, PaymentStatus::Refunded)))),
    }
}

/// The state of an escrow contract: its admin and its payments in the order
/// in which they were deposited.
pub struct EscrowModel {
    pub admin: Option<Address>,
    pub payments: Seq<PaymentRecord>,
}

impl EscrowModel {
    /// Every payment id occurs once.
    pub open spec fn wf(self) -> bool {
        ids_distinct(self.payments)
    }

    /// The funds of `asset` that the contract holds for pending payments.
    pub open spec fn escrowed(self, asset: Seq<char>) -> int {
        pending_total(self.payments, asset)
    }

    pub open spec fn initialize(self, admin: Address) -> EscrowModel {
        EscrowModel { admin: Some(admin), payments: self.payments }
    }

    /// A deposit is refused for a non-positive amount or a payment id that is
    /// taken; otherwise the amount is pulled from the sender and a pending
    /// record that expires `ttl_seconds` after `now` is stored.
    pub open spec fn deposit(
        self,
        payment_id: String,
        sender: Address,
        recipient: Address,
        asset: Address,
        amount: i128,
        ttl_seconds: u64,
        now: u64,
    ) -> (Result<Transfer, Error>, EscrowModel) {
        if amount <= 0 {
            (Err(Error::InvalidAmount), self)
        } else if lookup(self.payments, payment_id@) is Some {
            (Err(Error::AlreadyExists), self)
        } else {
            let record = PaymentRecord {
                id: payment_id,
                sender,
                recipient,
                amount,
                asset,
                status: PaymentStatus::Pending,
                created_at: now,
                expires_at: (now + ttl_seconds) as u64,
            };
            (
                Ok(Transfer::Incoming { asset, from: sender, amount }),
                EscrowModel { admin: self.admin, payments: self.payments.push(record) },
            )
        }
    }

    /// A pending payment is released to its recipient when the caller is its
    /// sender or the admin.
    pub open spec fn release(self, payment_id: Seq<char>, caller: Seq<char>) -> (
        Result<Transfer, Error>,
        EscrowModel,
    ) {
        match lookup(self.payments, payment_id) {
            None => (Err(Error::NotFound), self),
            Some(record) => if record.status != PaymentStatus::Pending {
                (Err(Error::Unauthorized), self)
            } else if caller != record.sender@ && caller != self.admin.unwrap()@ {
                (Err(Error::Unauthorized), self)
            } else {
                (
                    Ok(
                        Transfer::Outgoing {
                            asset: record.asset,
                            to: record.recipient,
                            amount: record.amount,
                        },
                    ),
                    EscrowModel {
                        admin: self.admin,
                        payments: settle(self.payments, payment_id, PaymentStatus::Released),
                    },
                )
            },
        }
    }

    /// A pending payment is refunded to its sender once `now` has reached its
    /// expiry time.
    pub open spec fn refund(self, payment_id: Seq<char>, now: u64) -> (
        Result<Transfer, Error>,
        EscrowModel,
    ) {
        match lookup(self.payments, payment_id) {
            None => (Err(Error::NotFound), self),
            Some(record) => if record.status != PaymentStatus::Pending {
                (Err(Error::Unauthorized), self)
            } else if now < record.expires_at {
                (Err(Error::Unauthorized), self)
            } else {
                (
                    Ok(
                        Transfer::Outgoing {
                            asset: record.asset,
                            to: record.sender,
                            amount: record.amount,
                        },
                    ),
                    EscrowModel {
                        admin: self.admin,
                        payments: settle(self.payments, payment_id, PaymentStatus::Refunded),
                    },
                )
            },
        }
    }

    pub open spec fn get_payment(self, payment_id: Seq<char>) -> Result<PaymentRecord, Error> {
        match lookup(self.payments, payment_id) {
            Some(record) => Ok(record),
            None => Err(Error::NotFound),
        }
    }
}

// ---------------------------------------------------------------------------
// Lemmas on the ledger
// ---------------------------------------------------------------------------

proof fn lemma_lookup_absent(s: Seq<PaymentRecord>, id: Seq<char>)
    requires
        forall|j: int| 0 <= j < s.len() ==> s[j].id@ != id,
    ensures
        lookup(s, id) is None,
    decreases s.len(),
{
    if s.len() > 0 {
        lemma_lookup_absent(s.drop_last(), id);
    }
}

proof fn lemma_lookup_none(s: Seq<PaymentRecord>, id: Seq<char>)
    requires
        lookup(s, id) is None,
    ensures
        forall|j: int| 0 <= j < s.len() ==> s[j].id@ != id,
    decreases s.len(),
{
    if s.len() > 0 {
        lemma_lookup_none(s.drop_last(), id);
        assert forall|j: int| 0 <= j < s.len() implies s[j].id@ != id by {
            if j < s.len() - 1 {
                assert(s.drop_last()[j] == s[j]);
            }
        }
    }
}

proof fn lemma_lookup_key(s: Seq<PaymentRecord>, id: Seq<char>)
    ensures
        lookup(s, id) matches Some(r) ==> r.id@ == id,
    decreases s.len(),
{
    if s.len() > 0 {
        lemma_lookup_key(s.drop_last(), id);
    }
}

proof fn lemma_lookup_at(s: Seq<PaymentRecord>, i: int, id: Seq<char>)
    requires
        ids_distinct(s),
        0 <= i < s.len(),
        s[i].id@ == id,
    ensures
        lookup(s, id) == Some(s[i]),
    decreases s.len(),
{
    if i < s.len() - 1 {
        assert(s.last().id@ != id);
        let t = s.drop_last();
        assert(t[i] == s[i]);
        lemma_lookup_at(t, i, id);
    }
}

proof fn lemma_lookup_settle(s: Seq<PaymentRecord>, id: Seq<char>, status: PaymentStatus, k: Seq<char>)
    ensures
        lookup(settle(s, id, status), k) == (match lookup(s, k) {
            Some(r) => Some(if r.id@ == id { with_status(r, status) } else { r }),
            None => None,
        }),
    decreases s.len(),
{
    if s.len() > 0 {
        assert(settle(s, id, status).drop_last() =~= settle(s.drop_last(), id, status));
        lemma_lookup_settle(s.drop_last(), id, status, k);
    }
}

proof fn lemma_pending_total_update(s: Seq<PaymentRecord>, i: int, x: PaymentRecord, asset: Seq<char>)
    requires
        0 <= i < s.len(),
    ensures
        pending_total(s.update(i, x), asset) == pending_total(s, asset) - held_by(s[i], asset)
            + held_by(x, asset),
    decreases s.len(),
{
    let u = s.update(i, x);
    if i == s.len() - 1 {
        assert(u.drop_last() =~= s.drop_last());
    } else {
        assert(u.drop_last() =~= s.drop_last().update(i, x));
        lemma_pending_total_update(s.drop_last(), i, x, asset);
    }
}

proof fn lemma_settle_at(s: Seq<PaymentRecord>, i: int, status: PaymentStatus)
    requires
        ids_distinct(s),
        0 <= i < s.len(),
    ensures
        settle(s, s[i].id@, status) =~= s.update(i, with_status(s[i], status)),
        ids_distinct(s.update(i, with_status(s[i], status))),
{
}

proof fn lemma_settle_found(s: Seq<PaymentRecord>, id: Seq<char>, status: PaymentStatus)
    requires
        ids_distinct(s),
        lookup(s, id) is Some,
    ensures
        exists|i: int|
            0 <= i < s.len() && s[i].id@ == id && #[trigger] s[i] == lookup(s, id).unwrap()
                && settle(s, id, status) =~= s.update(i, with_status(s[i], status)),
{
    let i = choose_index(s, id);
    lemma_lookup_at(s, i, id);
    lemma_settle_at(s, i, status);
}

proof fn choose_index(s: Seq<PaymentRecord>, id: Seq<char>) -> (i: int)
    requires
        lookup(s, id) is Some,
    ensures
        0 <= i < s.len(),
        s[i].id@ == id,
    decreases s.len(),
{
    if s.last().id@ == id {
        s.len() - 1
    } else {
        let i = choose_index(s.drop_last(), id);
        assert(s.drop_last()[i] == s[i]);
        i
    }
}

// ---------------------------------------------------------------------------
// Laws of the escrow
// ---------------------------------------------------------------------------

/// Every call keeps payment ids unique.
pub proof fn lemma_wf_preserved(
    m: EscrowModel,
    payment_id: String,
    sender: Address,
    recipient: Address,
    asset: Address,
    amount: i128,
    ttl_seconds: u64,
    now: u64,
    caller: Seq<char>,
)
    requires
        m.wf(),
    ensures
        m.initialize(sender).wf(),
        m.deposit(payment_id, sender, recipient, asset, amount, ttl_seconds, now).1.wf(),
        m.release(payment_id@, caller).1.wf(),
        m.refund(payment_id@, now).1.wf(),
{
    let id = payment_id@;
    if amount > 0 && lookup(m.payments, id) is None {
        lemma_lookup_none(m.payments, id);
    }
    if lookup(m.payments, id) is Some {
        lemma_settle_found(m.payments, id, PaymentStatus::Released);
        lemma_settle_found(m.payments, id, PaymentStatus::Refunded);
    }
}

/// For every asset, the funds of that asset held in escrow change by exactly
/// what each call moves in that asset: a deposit adds its amount, a release
/// or refund removes the amount of the payment it pays out, and a refused
/// call changes nothing.
pub proof fn lemma_funds_conserved(
    m: EscrowModel,
    payment_id: String,
    sender: Address,
    recipient: Address,
    asset: Address,
    amount: i128,
    ttl_seconds: u64,
    now: u64,
    caller: Seq<char>,
    a: Seq<char>,
)
    requires
        m.wf(),
    ensures
        ({
            let (r, m2) = m.deposit(payment_id, sender, recipient, asset, amount, ttl_seconds, now);
            &&& r is Ok ==> m2.escrowed(a) == m.escrowed(a) + net_flow_in(r.unwrap(), a)
            &&& r is Err ==> m2 == m
        }),
        ({
            let (r, m2) = m.release(payment_id@, caller);
            &&& r is Ok ==> m2.escrowed(a) == m.escrowed(a) + net_flow_in(r.unwrap(), a)
            &&& r is Err ==> m2 == m
        }),
        ({
            let (r, m2) = m.refund(payment_id@, now);
            &&& r is Ok ==> m2.escrowed(a) == m.escrowed(a) + net_flow_in(r.unwrap(), a)
            &&& r is Err ==> m2 == m
        }),
{
    let id = payment_id@;
    let s = m.payments;
    if amount > 0 && lookup(s, id) is None {
        let (_, m2) = m.deposit(payment_id, sender, recipient, asset, amount, ttl_seconds, now);
        assert(m2.payments.drop_last() =~= s);
    }
    if lookup(s, id) is Some {
        let i = choose_index(s, id);
        lemma_lookup_at(s, i, id);
        lemma_settle_at(s, i, PaymentStatus::Released);
        lemma_settle_at(s, i, PaymentStatus::Refunded);
        lemma_pending_total_update(s, i, with_status(s[i], PaymentStatus::Released), a);
        lemma_pending_total_update(s, i, with_status(s[i], PaymentStatus::Refunded), a);
    }
}

/// Every call moves each payment only forward: deposits add pending records,
/// releases and refunds turn a pending record into a released or refunded
/// one and leave all its other fields as they were, and no call removes a
/// record or changes another one.
pub proof fn lemma_status_moves_forward(
    m: EscrowModel,
    payment_id: String,
    sender: Address,
    recipient: Address,
    asset: Address,
    amount: i128,
    ttl_seconds: u64,
    now: u64,
    caller: Seq<char>,
    k: Seq<char>,
)
    requires
        m.wf(),
    ensures
        moves_forward(
            lookup(m.payments, k),
            lookup(
                m.deposit(payment_id, sender, recipient, asset, amount, ttl_seconds, now).1.payments,
                k,
            ),
        ),
        moves_forward(lookup(m.payments, k), lookup(m.release(payment_id@, caller).1.payments, k)),
        moves_forward(lookup(m.payments, k), lookup(m.refund(payment_id@, now).1.payments, k)),
{
    let id = payment_id@;
    lemma_lookup_key(m.payments, k);
    lemma_lookup_settle(m.payments, id, PaymentStatus::Released, k);
    lemma_lookup_settle(m.payments, id, PaymentStatus::Refunded, k);
    if amount > 0 && lookup(m.payments, id) is None {
        let (_, m2) = m.deposit(payment_id, sender, recipient, asset, amount, ttl_seconds, now);
        assert(m2.payments.drop_last() =~= m.payments);
    }
}

/// After a successful deposit the payment reads back as a pending record of
/// the deposited amount that expires `ttl_seconds` after `now`, a second
/// deposit under the same id is refused, and every other payment reads back
/// as before.
pub proof fn lemma_deposit_then_read(
    m: EscrowModel,
    payment_id: String,
    sender: Address,
    recipient: Address,
    asset: Address,
    amount: i128,
    ttl_seconds: u64,
    now: u64,
    other_id: Seq<char>,
    sender2: Address,
    recipient2: Address,
    asset2: Address,
    amount2: i128,
    ttl_seconds2: u64,
    now2: u64,
    payment_id2: String,
)
    requires
        m.wf(),
        m.deposit(payment_id, sender, recipient, asset, amount, ttl_seconds, now).0 is Ok,
        payment_id2@ == payment_id@,
        amount2 > 0,
        other_id != payment_id@,
    ensures
        ({
            let m2 = m.deposit(payment_id, sender, recipient, asset, amount, ttl_seconds, now).1;
            &&& m2.get_payment(payment_id@) == Ok::<PaymentRecord, Error>(
                PaymentRecord {
                    id: payment_id,
                    sender,
                    recipient,
                    amount,
                    asset,
                    status: PaymentStatus::Pending,
                    created_at: now,
                    expires_at: (now + ttl_seconds) as u64,
                },
            )
            &&& m2.deposit(payment_id2, sender2, recipient2, asset2, amount2, ttl_seconds2, now2).0
                == Err::<Transfer, Error>(Error::AlreadyExists)
            &&& m2.get_payment(other_id) == m.get_payment(other_id)
        }),
{
    let m2 = m.deposit(payment_id, sender, recipient, asset, amount, ttl_seconds, now).1;
    assert(m2.payments.drop_last() =~= m.payments);
}

/// A payment is paid out at most once: after it has been released or
/// refunded, neither a release nor a refund of it succeeds again, it reads
/// back with its new status, and every other payment reads back as before.
pub proof fn lemma_settled_is_final(
    m: EscrowModel,
    payment_id: Seq<char>,
    caller: Seq<char>,
    now: u64,
    caller2: Seq<char>,
    now2: u64,
    other_id: Seq<char>,
)
    requires
        m.wf(),
        other_id != payment_id,
    ensures
        ({
            let m2 = m.release(payment_id, caller).1;
            m.release(payment_id, caller).0 is Ok ==> {
                &&& m2.release(payment_id, caller2).0 == Err::<Transfer, Error>(Error::Unauthorized)
                &&& m2.refund(payment_id, now2).0 == Err::<Transfer, Error>(Error::Unauthorized)
                &&& m2.get_payment(payment_id) matches Ok(r) && r.status == PaymentStatus::Released
                &&& m2.get_payment(other_id) == m.get_payment(other_id)
            }
        }),
        ({
            let m2 = m.refund(payment_id, now).1;
            m.refund(payment_id, now).0 is Ok ==> {
                &&& m2.release(payment_id, caller2).0 == Err::<Transfer, Error>(Error::Unauthorized)
                &&& m2.refund(payment_id, now2).0 == Err::<Transfer, Error>(Error::Unauthorized)
                &&& m2.get_payment(payment_id) matches Ok(r) && r.status == PaymentStatus::Refunded
                &&& m2.get_payment(other_id) == m.get_payment(other_id)
            }
        }),
{
    lemma_lookup_settle(m.payments, payment_id, PaymentStatus::Released, payment_id);
    lemma_lookup_settle(m.payments, payment_id, PaymentStatus::Refunded, payment_id);
    lemma_lookup_settle(m.payments, payment_id, PaymentStatus::Released, other_id);
    lemma_lookup_settle(m.payments, payment_id, PaymentStatus::Refunded, other_id);
    lemma_lookup_key(m.payments, payment_id);
    lemma_lookup_key(m.payments, other_id);
    if lookup(m.payments, payment_id) is Some {
        let i = choose_index(m.payments, payment_id);
        lemma_lookup_at(m.payments, i, payment_id);
    }
}

/// Who may take money out: a release pays the recipient the deposited amount
/// and succeeds only for the sender or the admin; a refund pays the sender
/// the deposited amount and succeeds only once the payment has expired.
pub proof fn lemma_payout_rules(m: EscrowModel, payment_id: Seq<char>, caller: Seq<char>, now: u64)
    requires
        m.wf(),
    ensures
        m.release(payment_id, caller).0 is Ok ==> {
            &&& m.get_payment(payment_id) matches Ok(r)
            &&& r.status == PaymentStatus::Pending
            &&& (caller == r.sender@ || caller == m.admin.unwrap()@)
            &&& m.release(payment_id, caller).0 == Ok::<Transfer, Error>(
                Transfer::Outgoing { asset: r.asset, to: r.recipient, amount: r.amount },
            )
        },
        m.refund(payment_id, now).0 is Ok ==> {
            &&& m.get_payment(payment_id) matches Ok(r)
            &&& r.status == PaymentStatus::Pending
            &&& crate::shared::spec_is_expired(r, now)
            &&& m.refund(payment_id, now).0 == Ok::<Transfer, Error>(
                Transfer::Outgoing { asset: r.asset, to: r.sender, amount: r.amount },
            )
        },
{
}

/// `b` is the payment `a` with at most its status changed.
pub open spec fn same_payment(a: PaymentRecord, b: PaymentRecord) -> bool {
    &&& b.id == a.id
    &&& b.sender == a.sender
    &&& b.recipient == a.recipient
    &&& b.amount == a.amount
    &&& b.asset == a.asset
    &&& b.created_at == a.created_at
    &&& b.expires_at == a.expires_at
}

/// What a deposit answers: a non-positive amount is refused with
/// `InvalidAmount` and a taken id with `AlreadyExists`, both leaving the
/// state as it was; otherwise the whole amount is pulled from the sender, the
/// payment reads back as a pending record of exactly the deposited values
/// that expires `ttl_seconds` after `now`, and nothing else changes.
pub proof fn lemma_deposit_answers(
    m: EscrowModel,
    payment_id: String,
    sender: Address,
    recipient: Address,
    asset: Address,
    amount: i128,
    ttl_seconds: u64,
    now: u64,
    k: Seq<char>,
)
    requires
        m.wf(),
        amount > 0 && m.get_payment(payment_id@) is Err ==> now + ttl_seconds <= u64::MAX,
    ensures
        amount <= 0 ==> m.deposit(payment_id, sender, recipient, asset, amount, ttl_seconds, now)
            == (Err::<Transfer, Error>(Error::InvalidAmount), m),
        amount > 0 && m.get_payment(payment_id@) is Ok ==> m.deposit(
            payment_id,
            sender,
            recipient,
            asset,
            amount,
            ttl_seconds,
            now,
        ) == (Err::<Transfer, Error>(Error::AlreadyExists), m),
        amount > 0 && m.get_payment(payment_id@) is Err ==> {
            let (r, m2) = m.deposit(payment_id, sender, recipient, asset, amount, ttl_seconds, now);
            &&& r == Ok::<Transfer, Error>(Transfer::Incoming { asset, from: sender, amount })
            &&& m2.admin == m.admin
            &&& m2.get_payment(payment_id@) matches Ok(p)
            &&& p.id == payment_id && p.sender == sender && p.recipient == recipient
            &&& p.amount == amount && p.asset == asset && p.status == PaymentStatus::Pending
            &&& p.created_at == now && p.expires_at == now + ttl_seconds
            &&& k != payment_id@ ==> m2.get_payment(k) == m.get_payment(k)
        },
{
    if amount > 0 && m.get_payment(payment_id@) is Err {
        let (_, m2) = m.deposit(payment_id, sender, recipient, asset, amount, ttl_seconds, now);
        assert(m2.payments.drop_last() =~= m.payments);
    }
}

/// What a release answers: an unknown payment is refused with `NotFound`; a
/// payment that is no longer pending, or a caller who is neither its sender
/// nor the admin, with `Unauthorized`; refusals leave the state as it was.
/// Otherwise the recipient is paid the deposited amount in the deposited
/// asset, the payment reads back unchanged but for its status, now
/// `Released`, and every other payment reads back as before.
pub proof fn lemma_release_answers(
    m: EscrowModel,
    payment_id: Seq<char>,
    caller: Seq<char>,
    r: PaymentRecord,
    k: Seq<char>,
)
    requires
        m.wf(),
    ensures
        m.get_payment(payment_id) is Err ==> m.release(payment_id, caller) == (
            Err::<Transfer, Error>(Error::NotFound),
            m,
        ),
        m.get_payment(payment_id) == Ok::<PaymentRecord, Error>(r) && r.status
            != PaymentStatus::Pending ==> m.release(payment_id, caller) == (
            Err::<Transfer, Error>(Error::Unauthorized),
            m,
        ),
        m.get_payment(payment_id) == Ok::<PaymentRecord, Error>(r) && r.status
            == PaymentStatus::Pending && m.admin is Some && caller != r.sender@ && caller
            != m.admin.unwrap()@ ==> m.release(payment_id, caller) == (
            Err::<Transfer, Error>(Error::Unauthorized),
            m,
        ),
        m.get_payment(payment_id) == Ok::<PaymentRecord, Error>(r) && r.status
            == PaymentStatus::Pending && m.admin is Some && (caller == r.sender@ || caller
            == m.admin.unwrap()@) ==> {
            let (t, m2) = m.release(payment_id, caller);
            &&& t == Ok::<Transfer, Error>(
                Transfer::Outgoing { asset: r.asset, to: r.recipient, amount: r.amount },
            )
            &&& m2.admin == m.admin
            &&& m2.get_payment(payment_id) matches Ok(p)
            &&& same_payment(r, p)
            &&& p.status == PaymentStatus::Released
            &&& k != payment_id ==> m2.get_payment(k) == m.get_payment(k)
        },
{
    lemma_lookup_key(m.payments, payment_id);
    lemma_lookup_key(m.payments, k);
    lemma_lookup_settle(m.payments, payment_id, PaymentStatus::Released, payment_id);
    lemma_lookup_settle(m.payments, payment_id, PaymentStatus::Released, k);
}

/// What a refund answers: an unknown payment is refused with `NotFound`; a
/// payment that is no longer pending, or one whose expiry time `now` has not
/// reached, with `Unauthorized`; refusals leave the state as it was. At any
/// time from the expiry on, however late, a pending payment is paid back to
/// its sender in full, reads back unchanged but for its status, now
/// `Refunded`, and every other payment reads back as before.
pub proof fn lemma_refund_answers(
    m: EscrowModel,
    payment_id: Seq<char>,
    now: u64,
    r: PaymentRecord,
    k: Seq<char>,
)
    requires
        m.wf(),
    ensures
        m.get_payment(payment_id) is Err ==> m.refund(payment_id, now) == (
            Err::<Transfer, Error>(Error::NotFound),
            m,
        ),
        m.get_payment(payment_id) == Ok::<PaymentRecord, Error>(r) && r.status
            != PaymentStatus::Pending ==> m.refund(payment_id, now) == (
            Err::<Transfer, Error>(Error::Unauthorized),
            m,
        ),
        m.get_payment(payment_id) == Ok::<PaymentRecord, Error>(r) && r.status
            == PaymentStatus::Pending && now < r.expires_at ==> m.refund(payment_id, now) == (
            Err::<Transfer, Error>(Error::Unauthorized),
            m,
        ),
        m.get_payment(payment_id) == Ok::<PaymentRecord, Error>(r) && r.status
            == PaymentStatus::Pending && now >= r.expires_at ==> {
            let (t, m2) = m.refund(payment_id, now);
            &&& t == Ok::<Transfer, Error>(
                Transfer::Outgoing { asset: r.asset, to: r.sender, amount: r.amount },
            )
            &&& m2.admin == m.admin
            &&& m2.get_payment(payment_id) matches Ok(p)
            &&& same_payment(r, p)
            &&& p.status == PaymentStatus::Refunded
            &&& k != payment_id ==> m2.get_payment(k) == m.get_payment(k)
        },
{
    lemma_lookup_key(m.payments, payment_id);
    lemma_lookup_key(m.payments, k);
    lemma_lookup_settle(m.payments, payment_id, PaymentStatus::Refunded, payment_id);
    lemma_lookup_settle(m.payments, payment_id, PaymentStatus::Refunded, k);
}

/// Initializing sets the admin and leaves every payment as it was.
pub proof fn lemma_initialize_answers(m: EscrowModel, admin: Address, k: Seq<char>)
    ensures
        m.initialize(admin).admin == Some(admin),
        m.initialize(admin).get_payment(k) == m.get_payment(k),
{
}

// ---------------------------------------------------------------------------
// The contract
// ---------------------------------------------------------------------------

/// Holds funds in escrow until they are released by the sender or the admin,
/// or refunded to the sender once the payment has expired.
///
/// The fields are the contract's storage: the host persists them between
/// calls and hands them back unchanged.
pub struct AgentEscrowContract {
    pub admin: Option<Address>,
    pub payments: Vec<PaymentRecord>,
}

impl View for AgentEscrowContract {
    type V = EscrowModel;

    open spec fn view(&self) -> EscrowModel {
        EscrowModel { admin: self.admin, payments: self.payments@ }
    }
}

impl AgentEscrowContract {
    pub open spec fn wf(&self) -> bool {
        self@.wf()
    }

    /// A contract with empty storage.
    pub fn new() -> (r: Self)
        ensures
            r.wf(),
            r@.admin is None,
            r@.payments == Seq::<PaymentRecord>::empty(),
    {
        AgentEscrowContract { admin: None, payments: Vec::new() }
    }

    /// Initialize the contract with an admin address.
    pub fn initialize(&mut self, admin: Address)
        requires
            old(self).wf(),
        ensures
            final(self).wf(),
            final(self)@ == old(self)@.initialize(admin),
    {
        self.admin = Some(admin);
    }

    /// The index of the payment with the given id, if there is one.
    fn position(&self, payment_id: &String) -> (r: Option<usize>)
        requires
            self.wf(),
        ensures
            match r {
                Some(i) => i < self.payments@.len() && self.payments@[i as int].id@ == payment_id@
                    && lookup(self.payments@, payment_id@) == Some(
                    self.payments@[i as int],
                ),
                None => lookup(self.payments@, payment_id@) is None,
            },
    {
        let mut i: usize = 0;
        while i < self.payments.len()
            invariant
                self.wf(),
                i <= self.payments@.len(),
                forall|j: int| 0 <= j < i ==> self.payments@[j].id@ != payment_id@,
            decreases self.payments@.len() - i,
        {
            if self.payments[i].id == *payment_id {
                proof {
                    lemma_lookup_at(self.payments@, i as int, payment_id@);
                }
                return Some(i);
            }
            i = i + 1;
        }
        proof {
            lemma_lookup_absent(self.payments@, payment_id@);
        }
        None
    }

    /// Deposit funds into escrow for a payment, at ledger time `now`.
    pub fn deposit(
        &mut self,
        payment_id: String,
        sender: Address,
        recipient: Address,
        asset: Address,
        amount: i128,
        ttl_seconds: u64,
        now: u64,
    ) -> (r: Result<Transfer, Error>)
        requires
            old(self).wf(),
            amount > 0 && lookup(old(self)@.payments, payment_id@) is None ==> now + ttl_seconds
                <= u64::MAX,
        ensures
            final(self).wf(),
            (r, final(self)@) == old(self)@.deposit(
                payment_id,
                sender,
                recipient,
                asset,
                amount,
                ttl_seconds,
                now,
            ),
    {
        if amount <= 0 {
            return Err(Error::InvalidAmount);
        }
        if self.position(&payment_id).is_some() {
            return Err(Error::AlreadyExists);
        }
        let transfer = Transfer::Incoming { asset: asset.clone(), from: sender.clone(), amount };
        let record = PaymentRecord {
            id: payment_id,
            sender,
            recipient,
            amount,
            asset,
            status: PaymentStatus::Pending,
            created_at: now,
            expires_at: now + ttl_seconds,
        };
        proof {
            lemma_lookup_none(self.payments@, record.id@);
        }
        self.payments.push(record);
        Ok(transfer)
    }

    /// Mark the payment at `i` settled with `status`.
    fn settle_at(&mut self, i: usize, status: PaymentStatus)
        requires
            old(self).wf(),
            i < old(self).payments@.len(),
        ensures
            final(self).wf(),
            final(self).admin == old(self).admin,
            final(self).payments@ == settle(
                old(self).payments@,
                old(self).payments@[i as int].id@,
                status,
            ),
    {
        let mut record = self.payments[i].clone();
        record.status = status;
        proof {
            lemma_settle_at(self.payments@, i as int, status);
        }
        self.payments.set(i, record);
    }

    /// Release escrowed funds to the recipient.
    pub fn release(&mut self, payment_id: String, caller: Address) -> (r: Result<Transfer, Error>)
        requires
            old(self).wf(),
            lookup(old(self)@.payments, payment_id@) matches Some(record) && record.status
                == PaymentStatus::Pending ==> old(self)@.admin is Some,
        ensures
            final(self).wf(),
            (r, final(self)@) == old(self)@.release(payment_id@, caller@),
    {
        let i = match self.position(&payment_id) {
            Some(i) => i,
            None => return Err(Error::NotFound),
        };
        if self.payments[i].status != PaymentStatus::Pending {
            return Err(Error::Unauthorized);
        }
        let admin = self.admin.as_ref().unwrap();
        if !caller.same_as(&self.payments[i].sender) && !caller.same_as(admin) {
            return Err(Error::Unauthorized);
        }
        let transfer = Transfer::Outgoing {
            asset: self.payments[i].asset.clone(),
            to: self.payments[i].recipient.clone(),
            amount: self.payments[i].amount,
        };
        self.settle_at(i, PaymentStatus::Released);
        Ok(transfer)
    }

    /// Refund escrowed funds to the sender after expiry, at ledger time `now`.
    pub fn refund(&mut self, payment_id: String, now: u64) -> (r: Result<Transfer, Error>)
        requires
            old(self).wf(),
        ensures
            final(self).wf(),
            (r, final(self)@) == old(self)@.refund(payment_id@, now),
    {
        let i = match self.position(&payment_id) {
            Some(i) => i,
            None => return Err(Error::NotFound),
        };
        if self.payments[i].status != PaymentStatus::Pending {
            return Err(Error::Unauthorized);
        }
        if now < self.payments[i].expires_at {
            return Err(Error::Unauthorized);
        }
        let transfer = Transfer::Outgoing {
            asset: self.payments[i].asset.clone(),
            to: self.payments[i].sender.clone(),
            amount: self.payments[i].amount,
        };
        self.settle_at(i, PaymentStatus::Refunded);
        Ok(transfer)
    }

    /// Get a payment record by ID.
    pub fn get_payment(&self, payment_id: String) -> (r: Result<PaymentRecord, Error>)
        requires
            self.wf(),
        ensures
            r == self@.get_payment(payment_id@),
    {
        match self.position(&payment_id) {
            Some(i) => Ok(self.payments[i].clone()),
            None => Err(Error::NotFound),
        }
    }
}

} // verus!
