use vstd::prelude::*;

verus! {

/// The version string of the contracts.
pub const CONTRACT_VERSION: &'static str = "0.1.0";

/// An account or contract on the ledger, named by its key text.
#[derive(Debug, PartialEq, Eq)]
pub struct Address {
    pub key: String,
}

impl View for Address {
    type V = Seq<char>;

    open spec fn view(&self) -> Seq<char> {
        self.key@
    }
}

impl Clone for Address {
    fn clone(&self) -> (r: Self)
        ensures
            r == *self,
    {
        Address { key: self.key.clone() }
    }
}

impl Address {
    /// Whether the two addresses name the same account.
    pub fn same_as(&self, other: &Address) -> (r: bool)
        ensures
            r == (self@ == other@),
    {
        self.key == other.key
    }
}


/// Payment status for escrow and routing contracts.
#[derive(Clone, Copy, Debug, PartialEq, Eq, Structural)]
pub enum PaymentStatus {
    Pending,
    Released,
    Refunded,
    Expired,
}

/// A payment record held in escrow.
#[derive(Debug, PartialEq, Eq)]
pub struct PaymentRecord {
    pub id: String,
    pub sender: Address,
    pub recipient: Address,
    pub amount: i128,
    pub asset: Address,
    pub status: PaymentStatus,
    pub created_at: u64,
    pub expires_at: u64,
}

impl Clone for PaymentRecord {
    fn clone(&self) -> (r: Self)
        ensures
            r == *self,
    {
        PaymentRecord {
            id: self.id.clone(),
            sender: self.sender.clone(),
            recipient: self.recipient.clone(),
            amount: self.amount,
            asset: self.asset.clone(),
            status: self.status,
            created_at: self.created_at,
            expires_at: self.expires_at,
        }
    }
}

/// Error codes shared across contracts.
#[derive(Clone, Copy, Debug, PartialEq, Eq, Structural)]
pub enum Error {
    NotFound,
    Unauthorized,
    AlreadyExists,
    Expired,
    InsufficientFunds,
    InvalidAmount,
}

/// The text that describes each error.
pub open spec fn error_message(e: Error) -> Seq<char> {
    match e {
        Error::NotFound => "not found"@,
        Error::Unauthorized => "unauthorized"@,
        Error::AlreadyExists => "already exists"@,
        Error::Expired => "expired"@,
        Error::InsufficientFunds => "insufficient funds"@,
        Error::InvalidAmount => "invalid amount"@,
    }
}

impl Error {
    /// The human-readable text of the error.
    pub fn message(&self) -> (r: String)
        ensures
            r@ == error_message(*self),
    {
        match self {
            Error::NotFound => "not found".to_owned(),
            Error::Unauthorized => "unauthorized".to_owned(),
            Error::AlreadyExists => "already exists".to_owned(),
            Error::Expired => "expired".to_owned(),
            Error::InsufficientFunds => "insufficient funds".to_owned(),
            Error::InvalidAmount => "invalid amount".to_owned(),
        }
    }
}

/// A token movement that a contract call asks the host to carry out.
#[derive(Debug, PartialEq, Eq)]
pub enum Transfer {
    /// `amount` of `asset` moves from `from` into the contract.
    Incoming { asset: Address, from: Address, amount: i128 },
    /// `amount` of `asset` moves from the contract to `to`.
    Outgoing { asset: Address, to: Address, amount: i128 },
}

/// What a transfer adds to the contract's holdings (negative when it pays out).
pub open spec fn net_flow(t: Transfer) -> int {
    match t {
        Transfer::Incoming { amount, .. } => amount as int,
        Transfer::Outgoing { amount, .. } => -amount,
    }
}

/// What a transfer adds to the contract's holdings of `asset`.
pub open spec fn net_flow_in(t: Transfer, asset: Seq<char>) -> int {
    match t {
        Transfer::Incoming { asset: a, amount, .. } => if a@ == asset {
            amount as int
        } else {
            0
        },
        Transfer::Outgoing { asset: a, amount, .. } => if a@ == asset {
            -amount
        } else {
            0
        },
    }
}

/// What a sequence of transfers adds to the contract's holdings.
pub open spec fn net_flow_total(ts: Seq<Transfer>) -> int
    decreases ts.len(),
{
    if ts.len() == 0 {
        0
    } else {
        net_flow_total(ts.drop_last()) + net_flow(ts.last())
    }
}

/// Whether a record has passed its expiry timestamp at time `now`.
pub open spec fn spec_is_expired(record: PaymentRecord, now: u64) -> bool {
    now >= record.expires_at
}

/// Returns true if the payment has passed its expiry timestamp.
pub fn is_expired(record: &PaymentRecord, now: u64) -> (r: bool)
    ensures
        r == spec_is_expired(*record, now),
{
    now >= record.expires_at
}

/// The number of records in `s` whose status is `status`.
pub open spec fn status_count(s: Seq<PaymentRecord>, status: PaymentStatus) -> nat
    decreases s.len(),
{
    if s.len() == 0 {
        0
    } else {
        status_count(s.drop_last(), status) + if s.last().status == status {
            1nat
        } else {
            0nat
        }
    }
}

/// Count payments by status in a slice.
pub fn count_by_status(records: &[PaymentRecord], status: &PaymentStatus) -> (r: usize)
    ensures
        r == status_count(records@, *status),
{
    let mut n: usize = 0;
    let mut i: usize = 0;
    while i < records.len()
        invariant
            i <= records@.len(),
            n == status_count(records@.take(i as int), *status),
            n <= i,
        decreases records@.len() - i,
    {
        assert(records@.take(i + 1).drop_last() =~= records@.take(i as int));
        if records[i].status == *status {
            n = n + 1;
        }
        i = i + 1;
    }
    assert(records@.take(i as int) =~= records@);
    n
}


/// The texts of the errors: each error has its own text.
pub proof fn lemma_error_messages()
    ensures
        error_message(Error::NotFound) == "not found"@,
        error_message(Error::Unauthorized) == "unauthorized"@,
        error_message(Error::AlreadyExists) == "already exists"@,
        error_message(Error::Expired) == "expired"@,
        error_message(Error::InsufficientFunds) == "insufficient funds"@,
        error_message(Error::InvalidAmount) == "invalid amount"@,
        forall|a: Error, b: Error| a != b ==> error_message(a) != error_message(b),
{
    reveal_strlit("not found");
    reveal_strlit("unauthorized");
    reveal_strlit("already exists");
    reveal_strlit("expired");
    reveal_strlit("insufficient funds");
    reveal_strlit("invalid amount");
    assert forall|a: Error, b: Error| a != b implies error_message(a) != error_message(b) by {
        let x = error_message(a);
        let y = error_message(b);
        if x.len() == y.len() {
            assert(x[0] != y[0] || x[1] != y[1]);
        }
    }
}

/// A payment has expired exactly when `now` has reached its expiry time.
pub proof fn lemma_is_expired_at(record: PaymentRecord, now: u64)
    ensures
        spec_is_expired(record, now) <==> now >= record.expires_at,
        now < record.expires_at ==> !spec_is_expired(record, now),
{
}

/// How records are counted by status: no records count nothing, appending a
/// record adds one exactly when its status is the one counted, and the count
/// never exceeds the number of records.
pub proof fn lemma_count_by_status(s: Seq<PaymentRecord>, x: PaymentRecord, status: PaymentStatus)
    ensures
        status_count(Seq::<PaymentRecord>::empty(), status) == 0,
        status_count(s.push(x), status) == status_count(s, status) + if x.status == status {
            1int
        } else {
            0int
        },
        status_count(s, status) <= s.len(),
    decreases s.len(),
{
    assert(s.push(x).drop_last() =~= s);
    if s.len() > 0 {
        lemma_count_by_status(s.drop_last(), s.last(), status);
    }
}

} // verus!
