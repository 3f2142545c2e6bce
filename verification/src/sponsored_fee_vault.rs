use vstd::prelude::*;

use crate::shared::{Address, Error, Transfer, net_flow};

verus! {

/// The state of a fee vault: its admin, the funds it holds for fee
/// sponsorship, and the per-transaction fee allowance of each registered agent.
pub struct VaultModel {
    pub admin: Option<Address>,
    pub balance: i128,
    pub allowances: Map<Seq<char>, i128>,
}

impl VaultModel {
    /// The vault never owes more than it holds.
    pub open spec fn wf(self) -> bool {
        self.balance >= 0
    }

    /// Initializing sets the admin and starts the balance at zero.
    pub open spec fn initialize(self, admin: Address) -> VaultModel {
        VaultModel { admin: Some(admin), balance: 0, allowances: self.allowances }
    }

    /// A positive deposit is pulled from `from` and added to the balance.
    pub open spec fn deposit(self, from: Address, asset: Address, amount: i128) -> (
        Result<Transfer, Error>,
        VaultModel,
    ) {
        if amount <= 0 {
            (Err(Error::InvalidAmount), self)
        } else {
            (
                Ok(Transfer::Incoming { asset, from, amount }),
                VaultModel {
                    admin: self.admin,
                    balance: (self.balance + amount) as i128,
                    allowances: self.allowances,
                },
            )
        }
    }

    /// The admin registers an agent, or replaces its allowance.
    pub open spec fn register_agent(self, caller: Seq<char>, agent: Address, allowance: i128) -> (
        Result<(), Error>,
        VaultModel,
    ) {
        if caller != self.admin.unwrap()@ {
            (Err(Error::Unauthorized), self)
        } else {
            (
                Ok(()),
                VaultModel {
                    admin: self.admin,
                    balance: self.balance,
                    allowances: self.allowances.insert(agent@, allowance),
                },
            )
        }
    }

    /// A registered agent is paid a fee within its allowance and within the
    /// balance; the allowance applies to each fee and is not used up.
    pub open spec fn deduct_fee(self, agent: Address, asset: Address, fee: i128) -> (
        Result<Transfer, Error>,
        VaultModel,
    ) {
        if !self.allowances.contains_key(agent@) {
            (Err(Error::Unauthorized), self)
        } else if fee > self.allowances[agent@] {
            (Err(Error::InsufficientFunds), self)
        } else if fee > self.balance {
            (Err(Error::InsufficientFunds), self)
        } else {
            (
                Ok(Transfer::Outgoing { asset, to: agent, amount: fee }),
                VaultModel {
                    admin: self.admin,
                    balance: (self.balance - fee) as i128,
                    allowances: self.allowances,
                },
            )
        }
    }

    /// The admin withdraws up to the balance to itself.
    pub open spec fn withdraw(self, caller: Address, asset: Address, amount: i128) -> (
        Result<Transfer, Error>,
        VaultModel,
    ) {
        if caller@ != self.admin.unwrap()@ {
            (Err(Error::Unauthorized), self)
        } else if amount > self.balance {
            (Err(Error::InsufficientFunds), self)
        } else {
            (
                Ok(Transfer::Outgoing { asset, to: caller, amount }),
                VaultModel {
                    admin: self.admin,
                    balance: (self.balance - amount) as i128,
                    allowances: self.allowances,
                },
            )
        }
    }
}

// ---------------------------------------------------------------------------
// Laws of the vault
// ---------------------------------------------------------------------------

/// The balance never becomes negative: every call keeps it at zero or above.
pub proof fn lemma_balance_never_negative(
    m: VaultModel,
    admin: Address,
    caller: Address,
    agent: Address,
    asset: Address,
    amount: i128,
)
    requires
        m.wf(),
        amount > 0 ==> m.balance + amount <= i128::MAX,
        amount <= m.balance ==> m.balance - amount <= i128::MAX,
    ensures
        m.initialize(admin).wf(),
        m.deposit(caller, asset, amount).1.wf(),
        m.register_agent(caller@, agent, amount).1.wf(),
        m.deduct_fee(agent, asset, amount).1.wf(),
        m.withdraw(caller, asset, amount).1.wf(),
{
}

/// The balance changes by exactly what each call moves in or out, and a
/// refused call changes nothing.
pub proof fn lemma_balance_conserved(
    m: VaultModel,
    caller: Address,
    agent: Address,
    asset: Address,
    amount: i128,
)
    requires
        m.wf(),
        amount > 0 ==> m.balance + amount <= i128::MAX,
        amount <= m.balance ==> m.balance - amount <= i128::MAX,
    ensures
        ({
            let (r, m2) = m.deposit(caller, asset, amount);
            &&& r is Ok ==> m2.balance == m.balance + net_flow(r.unwrap())
            &&& r is Err ==> m2 == m
        }),
        ({
            let (r, m2) = m.deduct_fee(agent, asset, amount);
            &&& r is Ok ==> m2.balance == m.balance + net_flow(r.unwrap())
            &&& r is Err ==> m2 == m
        }),
        ({
            let (r, m2) = m.withdraw(caller, asset, amount);
            &&& r is Ok ==> m2.balance == m.balance + net_flow(r.unwrap())
            &&& r is Err ==> m2 == m
        }),
{
}

/// Once the admin has registered an agent with an allowance, the agent is
/// paid any fee within that allowance and the balance, as often as the
/// balance allows, while a fee above the allowance is refused; an agent that
/// was never registered is refused.
pub proof fn lemma_registered_agent_fees(
    m: VaultModel,
    agent: Address,
    allowance: i128,
    asset: Address,
    fee: i128,
    stranger: Address,
)
    requires
        m.admin is Some,
        !m.allowances.contains_key(stranger@),
        stranger@ != agent@,
    ensures
        ({
            let m2 = m.register_agent(m.admin.unwrap()@, agent, allowance).1;
            &&& fee <= allowance && fee <= m2.balance ==> m2.deduct_fee(agent, asset, fee).0
                == Ok::<Transfer, Error>(Transfer::Outgoing { asset, to: agent, amount: fee })
            &&& fee <= allowance && fee <= m2.balance ==> m2.deduct_fee(agent, asset, fee).1.allowances
                == m2.allowances
            &&& fee > allowance ==> m2.deduct_fee(agent, asset, fee).0 == Err::<Transfer, Error>(
                Error::InsufficientFunds,
            )
            &&& m2.deduct_fee(stranger, asset, fee).0 == Err::<Transfer, Error>(
                Error::Unauthorized,
            )
        }),
{
}

/// What a deposit answers: a non-positive amount is refused with
/// `InvalidAmount`, leaving the state as it was. Any depositor, admin or not,
/// may deposit any positive amount: the whole amount is pulled from it in the
/// given asset and added to the balance, and nothing else changes.
pub proof fn lemma_deposit_answers(m: VaultModel, from: Address, asset: Address, amount: i128)
    requires
        amount > 0 ==> m.balance + amount <= i128::MAX,
    ensures
        amount <= 0 ==> m.deposit(from, asset, amount) == (
            Err::<Transfer, Error>(Error::InvalidAmount),
            m,
        ),
        amount > 0 ==> m.deposit(from, asset, amount).0 == Ok::<Transfer, Error>(
            Transfer::Incoming { asset, from, amount },
        ),
        amount > 0 ==> m.deposit(from, asset, amount).1.balance == m.balance + amount,
        amount > 0 ==> m.deposit(from, asset, amount).1.admin == m.admin,
        amount > 0 ==> m.deposit(from, asset, amount).1.allowances == m.allowances,
{
}

/// What registering an agent answers: a caller other than the admin is
/// refused with `Unauthorized`, leaving the state as it was. The admin's
/// registration gives the agent exactly the given allowance, replacing any
/// earlier one, and leaves the other agents, the balance and the admin as
/// they were.
pub proof fn lemma_register_agent_answers(
    m: VaultModel,
    caller: Seq<char>,
    agent: Address,
    allowance: i128,
    other: Seq<char>,
)
    requires
        m.admin is Some,
    ensures
        caller != m.admin.unwrap()@ ==> m.register_agent(caller, agent, allowance) == (
            Err::<(), Error>(Error::Unauthorized),
            m,
        ),
        caller == m.admin.unwrap()@ ==> m.register_agent(caller, agent, allowance).0 == Ok::<
            (),
            Error,
        >(()),
        caller == m.admin.unwrap()@ ==> m.register_agent(caller, agent, allowance).1.allowances.contains_key(agent@),
        caller == m.admin.unwrap()@ ==> m.register_agent(caller, agent, allowance).1.allowances[agent@] == allowance,
        caller == m.admin.unwrap()@ && other != agent@ ==> m.register_agent(caller, agent, allowance).1.allowances.contains_key(other) == m.allowances.contains_key(other),
        caller == m.admin.unwrap()@ && other != agent@ ==> m.register_agent(caller, agent, allowance).1.allowances[other] == m.allowances[other],
        caller == m.admin.unwrap()@ ==> m.register_agent(caller, agent, allowance).1.balance == m.balance,
        caller == m.admin.unwrap()@ ==> m.register_agent(caller, agent, allowance).1.admin == m.admin,
{
}

/// What deducting a fee answers: an agent that was never registered is
/// refused with `Unauthorized`, and a fee above the agent's allowance or
/// above the balance with `InsufficientFunds`, each leaving the state as it
/// was. Any other fee, up to and including the allowance and the balance, is
/// paid to the agent in the given asset and taken off the balance; the
/// allowances stay as they were.
pub proof fn lemma_deduct_fee_answers(m: VaultModel, agent: Address, asset: Address, fee: i128)
    requires
        fee <= m.balance ==> m.balance - fee <= i128::MAX,
    ensures
        !m.allowances.contains_key(agent@) ==> m.deduct_fee(agent, asset, fee) == (
            Err::<Transfer, Error>(Error::Unauthorized),
            m,
        ),
        m.allowances.contains_key(agent@) && fee > m.allowances[agent@] ==> m.deduct_fee(
            agent,
            asset,
            fee,
        ) == (Err::<Transfer, Error>(Error::InsufficientFunds), m),
        m.allowances.contains_key(agent@) && fee <= m.allowances[agent@] && fee > m.balance
            ==> m.deduct_fee(agent, asset, fee) == (
            Err::<Transfer, Error>(Error::InsufficientFunds),
            m,
        ),
        m.allowances.contains_key(agent@) && fee <= m.allowances[agent@] && fee <= m.balance
            ==> m.deduct_fee(agent, asset, fee).0 == Ok::<Transfer, Error>(
            Transfer::Outgoing { asset, to: agent, amount: fee },
        ),
        m.allowances.contains_key(agent@) && fee <= m.allowances[agent@] && fee <= m.balance
            ==> m.deduct_fee(agent, asset, fee).1.balance == m.balance - fee,
        m.allowances.contains_key(agent@) && fee <= m.allowances[agent@] && fee <= m.balance
            ==> m.deduct_fee(agent, asset, fee).1.allowances == m.allowances,
        m.allowances.contains_key(agent@) && fee <= m.allowances[agent@] && fee <= m.balance
            ==> m.deduct_fee(agent, asset, fee).1.admin == m.admin,
{
}

/// What a withdrawal answers: a caller other than the admin is refused with
/// `Unauthorized`, and an amount above the balance with `InsufficientFunds`,
/// each leaving the state as it was. The admin may withdraw any amount up to
/// and including the whole balance: it is paid to the admin in the given
/// asset and taken off the balance, and nothing else changes.
pub proof fn lemma_withdraw_answers(m: VaultModel, caller: Address, asset: Address, amount: i128)
    requires
        m.admin is Some,
        amount <= m.balance ==> m.balance - amount <= i128::MAX,
    ensures
        caller@ != m.admin.unwrap()@ ==> m.withdraw(caller, asset, amount) == (
            Err::<Transfer, Error>(Error::Unauthorized),
            m,
        ),
        caller@ == m.admin.unwrap()@ && amount > m.balance ==> m.withdraw(caller, asset, amount)
            == (Err::<Transfer, Error>(Error::InsufficientFunds), m),
        caller@ == m.admin.unwrap()@ && amount <= m.balance ==> m.withdraw(caller, asset, amount).0
            == Ok::<Transfer, Error>(Transfer::Outgoing { asset, to: caller, amount }),
        caller@ == m.admin.unwrap()@ && amount <= m.balance ==> m.withdraw(caller, asset, amount).1.balance
            == m.balance - amount,
        caller@ == m.admin.unwrap()@ && amount <= m.balance ==> m.withdraw(caller, asset, amount).1.allowances
            == m.allowances,
        caller@ == m.admin.unwrap()@ && amount <= m.balance ==> m.withdraw(caller, asset, amount).1.admin
            == m.admin,
{
}

/// Initializing sets the admin and a zero balance and keeps the allowances.
pub proof fn lemma_initialize_answers(m: VaultModel, admin: Address)
    ensures
        m.initialize(admin).admin == Some(admin),
        m.initialize(admin).balance == 0,
        m.initialize(admin).allowances == m.allowances,
{
}

/// One call of the vault's entry points, with its arguments.
pub enum VaultCall {
    Deposit { from: Address, asset: Address, amount: i128 },
    RegisterAgent { caller: Address, agent: Address, allowance: i128 },
    DeductFee { agent: Address, asset: Address, fee: i128 },
    Withdraw { caller: Address, asset: Address, amount: i128 },
}

impl VaultModel {
    /// Whether the call runs to its end on this state, rather than stopping
    /// on a missing admin or an arithmetic overflow.
    pub open spec fn admits(self, c: VaultCall) -> bool {
        match c {
            VaultCall::Deposit { amount, .. } => amount > 0 ==> self.balance + amount <= i128::MAX,
            VaultCall::RegisterAgent { .. } => self.admin is Some,
            VaultCall::DeductFee { agent, fee, .. } => self.allowances.contains_key(agent@) && fee
                <= self.allowances[agent@] && fee <= self.balance ==> self.balance - fee
                <= i128::MAX,
            VaultCall::Withdraw { caller, amount, .. } => self.admin is Some && (caller@
                == self.admin.unwrap()@ && amount <= self.balance ==> self.balance - amount
                <= i128::MAX),
        }
    }

    /// The state after the call.
    pub open spec fn step(self, c: VaultCall) -> VaultModel {
        match c {
            VaultCall::Deposit { from, asset, amount } => self.deposit(from, asset, amount).1,
            VaultCall::RegisterAgent { caller, agent, allowance } => self.register_agent(
                caller@,
                agent,
                allowance,
            ).1,
            VaultCall::DeductFee { agent, asset, fee } => self.deduct_fee(agent, asset, fee).1,
            VaultCall::Withdraw { caller, asset, amount } => self.withdraw(caller, asset, amount).1,
        }
    }

    /// What the call moves into the vault: the net flow of the transfer of a
    /// call that succeeds, and nothing for a refused call or a registration.
    pub open spec fn step_flow(self, c: VaultCall) -> int {
        let r = match c {
            VaultCall::Deposit { from, asset, amount } => self.deposit(from, asset, amount).0,
            VaultCall::RegisterAgent { .. } => Err(Error::Unauthorized),
            VaultCall::DeductFee { agent, asset, fee } => self.deduct_fee(agent, asset, fee).0,
            VaultCall::Withdraw { caller, asset, amount } => self.withdraw(caller, asset, amount).0,
        };
        match r {
            Ok(t) => net_flow(t),
            Err(_) => 0,
        }
    }

    /// The state after the calls, in order.
    pub open spec fn run(self, calls: Seq<VaultCall>) -> VaultModel
        decreases calls.len(),
    {
        if calls.len() == 0 {
            self
        } else {
            self.run(calls.drop_last()).step(calls.last())
        }
    }

    /// The sum of what the calls, in order, move into the vault.
    pub open spec fn run_flow(self, calls: Seq<VaultCall>) -> int
        decreases calls.len(),
    {
        if calls.len() == 0 {
            0
        } else {
            self.run_flow(calls.drop_last()) + self.run(calls.drop_last()).step_flow(calls.last())
        }
    }

    /// Every call runs to its end on the state it meets.
    pub open spec fn runs(self, calls: Seq<VaultCall>) -> bool
        decreases calls.len(),
    {
        if calls.len() == 0 {
            true
        } else {
            self.runs(calls.drop_last()) && self.run(calls.drop_last()).admits(calls.last())
        }
    }
}

proof fn lemma_step(m: VaultModel, c: VaultCall)
    requires
        m.wf(),
        m.admits(c),
    ensures
        m.step(c).wf(),
        m.step(c).balance == m.balance + m.step_flow(c),
{
}

proof fn lemma_run(m: VaultModel, calls: Seq<VaultCall>)
    requires
        m.wf(),
        m.runs(calls),
    ensures
        m.run(calls).wf(),
        m.run(calls).balance == m.balance + m.run_flow(calls),
    decreases calls.len(),
{
    if calls.len() > 0 {
        lemma_run(m, calls.drop_last());
        lemma_step(m.run(calls.drop_last()), calls.last());
    }
}

/// After the vault is initialized, whatever calls follow, the balance is the
/// sum of the successful deposits less the successful fees and withdrawals
/// since then, and it is never negative.
pub proof fn lemma_balance_over_calls(m: VaultModel, admin: Address, calls: Seq<VaultCall>)
    requires
        m.initialize(admin).runs(calls),
    ensures
        m.initialize(admin).run(calls).balance == m.initialize(admin).run_flow(calls),
        m.initialize(admin).run(calls).balance >= 0,
{
    lemma_run(m.initialize(admin), calls);
}

// ---------------------------------------------------------------------------
// The contract's storage of allowances
// ---------------------------------------------------------------------------

/// The stored allowance of one agent.
pub struct AgentEntry {
    pub agent: Address,
    pub allowance: i128,
}

/// The allowances of `s`, where a later entry for an agent overrides an
/// earlier one.
pub open spec fn allowance_map(s: Seq<AgentEntry>) -> Map<Seq<char>, i128>
    decreases s.len(),
{
    if s.len() == 0 {
        Map::empty()
    } else {
        allowance_map(s.drop_last()).insert(s.last().agent@, s.last().allowance)
    }
}

proof fn lemma_map_absent(s: Seq<AgentEntry>, k: Seq<char>)
    requires
        forall|j: int| 0 <= j < s.len() ==> s[j].agent@ != k,
    ensures
        !allowance_map(s).contains_key(k),
    decreases s.len(),
{
    if s.len() > 0 {
        lemma_map_absent(s.drop_last(), k);
    }
}

proof fn lemma_map_at(s: Seq<AgentEntry>, i: int, k: Seq<char>)
    requires
        0 <= i < s.len(),
        s[i].agent@ == k,
        forall|j: int| i < j < s.len() ==> s[j].agent@ != k,
    ensures
        allowance_map(s).contains_key(k),
        allowance_map(s)[k] == s[i].allowance,
    decreases s.len(),
{
    if i < s.len() - 1 {
        let t = s.drop_last();
        assert(t[i] == s[i]);
        lemma_map_at(t, i, k);
    }
}

proof fn lemma_map_update(s: Seq<AgentEntry>, i: int, e: AgentEntry)
    requires
        0 <= i < s.len(),
        s[i].agent@ == e.agent@,
        forall|j: int| i < j < s.len() ==> s[j].agent@ != e.agent@,
    ensures
        allowance_map(s.update(i, e)) =~= allowance_map(s).insert(e.agent@, e.allowance),
    decreases s.len(),
{
    let u = s.update(i, e);
    if i == s.len() - 1 {
        assert(u.drop_last() =~= s.drop_last());
    } else {
        let t = s.drop_last();
        assert(u.drop_last() =~= t.update(i, e));
        lemma_map_update(t, i, e);
    }
}

// ---------------------------------------------------------------------------
// The contract
// ---------------------------------------------------------------------------

/// A vault that sponsors the fees of registered agents.
///
/// The fields are the contract's storage: the host persists them between
/// calls and hands them back unchanged.
pub struct SponsoredFeeVaultContract {
    pub admin: Option<Address>,
    pub balance: i128,
    pub agents: Vec<AgentEntry>,
}

impl View for SponsoredFeeVaultContract {
    type V = VaultModel;

    open spec fn view(&self) -> VaultModel {
        VaultModel {
            admin: self.admin,
            balance: self.balance,
            allowances: allowance_map(self.agents@),
        }
    }
}

impl SponsoredFeeVaultContract {
    pub open spec fn wf(&self) -> bool {
        self@.wf()
    }

    /// A contract with empty storage.
    pub fn new() -> (r: Self)
        ensures
            r.wf(),
            r@.admin is None,
            r@.balance == 0,
            r@.allowances == Map::<Seq<char>, i128>::empty(),
    {
        SponsoredFeeVaultContract { admin: None, balance: 0, agents: Vec::new() }
    }

    /// Initialize vault with admin.
    pub fn initialize(&mut self, admin: Address)
        requires
            old(self).wf(),
        ensures
            final(self).wf(),
            final(self)@ == old(self)@.initialize(admin),
    {
        self.admin = Some(admin);
        self.balance = 0;
    }

    /// The index of the latest entry for `agent`, if there is one.
    fn position(&self, agent: &Address) -> (r: Option<usize>)
        ensures
            match r {
                Some(i) => i < self.agents@.len() && self.agents@[i as int].agent@ == agent@
                    && forall|j: int|
                    i < j < self.agents@.len() ==> self.agents@[j].agent@ != agent@,
                None => forall|j: int| 0 <= j < self.agents@.len() ==> self.agents@[j].agent@ != agent@,
            },
            match r {
                Some(i) => allowance_map(self.agents@).contains_key(agent@) && allowance_map(
                    self.agents@,
                )[agent@] == self.agents@[i as int].allowance,
                None => !allowance_map(self.agents@).contains_key(agent@),
            },
    {
        let mut i: usize = self.agents.len();
        while i > 0
            invariant
                i <= self.agents@.len(),
                forall|j: int| i <= j < self.agents@.len() ==> self.agents@[j].agent@ != agent@,
            decreases i,
        {
            i = i - 1;
            if self.agents[i].agent.same_as(agent) {
                proof {
                    lemma_map_at(self.agents@, i as int, agent@);
                }
                return Some(i);
            }
        }
        proof {
            lemma_map_absent(self.agents@, agent@);
        }
        None
    }

    /// Deposit funds into the vault for fee sponsorship.
    pub fn deposit(&mut self, from: Address, asset: Address, amount: i128) -> (r: Result<
        Transfer,
        Error,
    >)
        requires
            old(self).wf(),
            amount > 0 ==> old(self)@.balance + amount <= i128::MAX,
        ensures
            final(self).wf(),
            (r, final(self)@) == old(self)@.deposit(from, asset, amount),
    {
        if amount <= 0 {
            return Err(Error::InvalidAmount);
        }
        self.balance = self.balance + amount;
        Ok(Transfer::Incoming { asset, from, amount })
    }

    /// Register an agent with a per-transaction fee allowance.
    pub fn register_agent(&mut self, caller: Address, agent: Address, allowance: i128) -> (r:
        Result<(), Error>)
        requires
            old(self).wf(),
            old(self)@.admin is Some,
        ensures
            final(self).wf(),
            (r, final(self)@) == old(self)@.register_agent(caller@, agent, allowance),
    {
        let admin = self.admin.as_ref().unwrap();
        if !caller.same_as(admin) {
            return Err(Error::Unauthorized);
        }
        match self.position(&agent) {
            Some(i) => {
                let entry = AgentEntry { agent, allowance };
                proof {
                    lemma_map_update(self.agents@, i as int, entry);
                }
                self.agents.set(i, entry);
            },
            None => {
                self.agents.push(AgentEntry { agent, allowance });
                assert(self.agents@.drop_last() =~= old(self).agents@);
            },
        }
        Ok(())
    }

    /// Pay a fee from the vault on behalf of an agent.
    pub fn deduct_fee(&mut self, agent: Address, asset: Address, fee: i128) -> (r: Result<
        Transfer,
        Error,
    >)
        requires
            old(self).wf(),
            old(self)@.allowances.contains_key(agent@) && fee <= old(self)@.allowances[agent@]
                && fee <= old(self)@.balance ==> old(self)@.balance - fee <= i128::MAX,
        ensures
            final(self).wf(),
            (r, final(self)@) == old(self)@.deduct_fee(agent, asset, fee),
    {
        let allowance = match self.position(&agent) {
            Some(i) => self.agents[i].allowance,
            None => return Err(Error::Unauthorized),
        };
        if fee > allowance {
            return Err(Error::InsufficientFunds);
        }
        if fee > self.balance {
            return Err(Error::InsufficientFunds);
        }
        self.balance = self.balance - fee;
        Ok(Transfer::Outgoing { asset, to: agent, amount: fee })
    }

    /// Get current vault balance.
    pub fn get_balance(&self) -> (r: i128)
        ensures
            r == self@.balance,
    {
        self.balance
    }
}

/// Withdraw funds from the vault to the admin.
pub fn withdraw(
    contract: &mut SponsoredFeeVaultContract,
    caller: Address,
    asset: Address,
    amount: i128,
) -> (r: Result<Transfer, Error>)
    requires
        old(contract).wf(),
        old(contract)@.admin is Some,
        caller@ == old(contract)@.admin.unwrap()@ && amount <= old(contract)@.balance ==> old(
            contract,
        )@.balance - amount <= i128::MAX,
    ensures
        final(contract).wf(),
        (r, final(contract)@) == old(contract)@.withdraw(caller, asset, amount),
{
    let admin = contract.admin.as_ref().unwrap();
    if !caller.same_as(admin) {
        return Err(Error::Unauthorized);
    }
    if amount > contract.balance {
        return Err(Error::InsufficientFunds);
    }
    contract.balance = contract.balance - amount;
    Ok(Transfer::Outgoing { asset, to: caller, amount })
}

/// Get the current admin address.
pub fn get_admin(contract: &SponsoredFeeVaultContract) -> (r: Option<Address>)
    ensures
        r == contract@.admin,
{
    match &contract.admin {
        Some(admin) => Some(admin.clone()),
        None => None,
    }
}

} // verus!
