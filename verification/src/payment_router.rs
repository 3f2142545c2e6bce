use vstd::prelude::*;

use crate::shared::{Address, Error, Transfer, net_flow_total};

verus! {

/// The basis points that make up a whole payment.
pub const TOTAL_BPS: u32 = 10_000;

/// One destination of a routing table and its share in basis points
/// (100 = 1%).
#[derive(Debug, PartialEq, Eq)]
pub struct Route {
    pub destination: Address,
    pub bps: u32,
}

impl Clone for Route {
    fn clone(&self) -> (r: Self)
        ensures
            r == *self,
    {
        Route { destination: self.destination.clone(), bps: self.bps }
    }
}

/// The sum of the basis points of a routing table.
pub open spec fn bps_total(routes: Seq<Route>) -> int
    decreases routes.len(),
{
    if routes.len() == 0 {
        0
    } else {
        bps_total(routes.drop_last()) + routes.last().bps
    }
}

/// The part of `total` that a share of `bps` basis points is worth, rounded down.
pub open spec fn share(total: i128, bps: u32) -> int {
    (total * bps) / (TOTAL_BPS as int)
}

/// The payouts of `total` along `routes`, in table order, leaving out the
/// destinations whose share rounds down to nothing.
pub open spec fn payouts(routes: Seq<Route>, asset: Address, total: i128) -> Seq<Transfer>
    decreases routes.len(),
{
    if routes.len() == 0 {
        Seq::empty()
    } else {
        let before = payouts(routes.drop_last(), asset, total);
        let amount = share(total, routes.last().bps);
        if amount > 0 {
            before.push(
                Transfer::Outgoing { asset, to: routes.last().destination, amount: amount as i128 },
            )
        } else {
            before
        }
    }
}

/// The state of a router contract: its admin and its routing table, if one
/// has been set.
pub struct RouterModel {
    pub admin: Option<Address>,
    pub routes: Option<Seq<Route>>,
}

impl RouterModel {
    /// A stored routing table splits the whole payment.
    pub open spec fn wf(self) -> bool {
        self.routes matches Some(routes) ==> bps_total(routes) == TOTAL_BPS
    }

    pub open spec fn initialize(self, admin: Address) -> RouterModel {
        RouterModel { admin: Some(admin), routes: self.routes }
    }

    /// Only the admin may set the routing table, and its basis points must sum
    /// to the whole payment.
    pub open spec fn set_routes(self, caller: Seq<char>, routes: Seq<Route>) -> (
        Result<(), Error>,
        RouterModel,
    ) {
        if caller != self.admin.unwrap()@ {
            (Err(Error::Unauthorized), self)
        } else if bps_total(routes) != TOTAL_BPS {
            (Err(Error::InvalidAmount), self)
        } else {
            (Ok(()), RouterModel { admin: self.admin, routes: Some(routes) })
        }
    }

    /// A positive payment is pulled from the sender in full and split across
    /// the routing table.
    pub open spec fn route(self, sender: Address, asset: Address, total_amount: i128) -> Result<
        Seq<Transfer>,
        Error,
    > {
        if total_amount <= 0 {
            Err(Error::InvalidAmount)
        } else {
            match self.routes {
                None => Err(Error::NotFound),
                Some(routes) => Ok(
                    seq![Transfer::Incoming { asset, from: sender, amount: total_amount }]
                        + payouts(routes, asset, total_amount),
                ),
            }
        }
    }

    /// Routing `total_amount` multiplies no share past the range of `i128`.
    pub open spec fn route_fits(self, total_amount: i128) -> bool {
        match self.routes {
            Some(routes) => total_amount > 0 ==> forall|i: int|
                0 <= i < routes.len() ==> total_amount * #[trigger] routes[i].bps <= i128::MAX,
            None => true,
        }
    }

    pub open spec fn get_routes(self) -> Seq<Route> {
        match self.routes {
            Some(routes) => routes,
            None => Seq::empty(),
        }
    }
}

// ---------------------------------------------------------------------------
// Lemmas
// ---------------------------------------------------------------------------

proof fn lemma_bps_prefix(routes: Seq<Route>, i: int)
    requires
        0 <= i <= routes.len(),
    ensures
        0 <= bps_total(routes.take(i)) <= bps_total(routes),
    decreases routes.len(),
{
    lemma_bps_nonneg(routes.take(i));
    if i == routes.len() {
        assert(routes.take(i) =~= routes);
    } else {
        assert(routes.take(i) =~= routes.drop_last().take(i));
        lemma_bps_prefix(routes.drop_last(), i);
    }
}

proof fn lemma_bps_nonneg(routes: Seq<Route>)
    ensures
        bps_total(routes) >= 0,
    decreases routes.len(),
{
    if routes.len() > 0 {
        lemma_bps_nonneg(routes.drop_last());
    }
}

/// The sum of the shares of `total` along `routes`.
pub open spec fn share_sum(routes: Seq<Route>, total: i128) -> int
    decreases routes.len(),
{
    if routes.len() == 0 {
        0
    } else {
        share_sum(routes.drop_last(), total) + share(total, routes.last().bps)
    }
}

proof fn lemma_share_bounds(total: i128, bps: u32)
    requires
        total > 0,
    ensures
        0 <= share(total, bps),
        TOTAL_BPS * share(total, bps) <= total * bps,
        total * bps - TOTAL_BPS * share(total, bps) <= TOTAL_BPS - 1,
{
    assert(total * bps >= 0) by (nonlinear_arith)
        requires
            total > 0,
    ;
}

proof fn lemma_share_sum_bounds(routes: Seq<Route>, total: i128)
    requires
        total > 0,
    ensures
        0 <= share_sum(routes, total),
        TOTAL_BPS * share_sum(routes, total) <= total * bps_total(routes),
        total * bps_total(routes) - TOTAL_BPS * share_sum(routes, total) <= (TOTAL_BPS - 1)
            * routes.len(),
    decreases routes.len(),
{
    if routes.len() > 0 {
        let rest = routes.drop_last();
        lemma_share_sum_bounds(rest, total);
        lemma_share_bounds(total, routes.last().bps);
        let b = bps_total(rest);
        let x = routes.last().bps as int;
        assert(total * (b + x) == total * b + total * x) by (nonlinear_arith);
    }
}

proof fn lemma_payouts_flow(routes: Seq<Route>, asset: Address, total: i128, first: Transfer)
    requires
        total > 0,
        forall|i: int| 0 <= i < routes.len() ==> total * #[trigger] routes[i].bps <= i128::MAX,
    ensures
        net_flow_total(seq![first] + payouts(routes, asset, total)) == crate::shared::net_flow(
            first,
        ) - share_sum(routes, total),
    decreases routes.len(),
{
    if routes.len() > 0 {
        let rest = routes.drop_last();
        assert forall|i: int| 0 <= i < rest.len() implies total * #[trigger] rest[i].bps
            <= i128::MAX by {
            assert(rest[i] == routes[i]);
        }
        lemma_payouts_flow(rest, asset, total, first);
        lemma_share_bounds(total, routes.last().bps);
        let amount = share(total, routes.last().bps);
        assert(total * routes[routes.len() - 1].bps <= i128::MAX);
        let before = seq![first] + payouts(rest, asset, total);
        if amount > 0 {
            let t = Transfer::Outgoing {
                asset,
                to: routes.last().destination,
                amount: amount as i128,
            };
            assert((seq![first] + payouts(routes, asset, total)) =~= before.push(t));
            assert(before.push(t).drop_last() =~= before);
            assert(net_flow_total(before.push(t)) == net_flow_total(before) + crate::shared::net_flow(t));
            assert(crate::shared::net_flow(t) == -amount);
        } else {
            assert((seq![first] + payouts(routes, asset, total)) =~= before);
            assert(amount == 0);
        }
    } else {
        assert((seq![first] + payouts(routes, asset, total)) =~= seq![first]);
        assert(seq![first].drop_last() =~= Seq::<Transfer>::empty());
        assert(seq![first].last() == first);
        assert(net_flow_total(seq![first].drop_last()) == 0);
        assert(net_flow_total(seq![first]) == crate::shared::net_flow(first));
    }
}

// ---------------------------------------------------------------------------
// Laws of the router
// ---------------------------------------------------------------------------

/// A stored routing table always splits the whole payment: every call keeps
/// the basis points of the table summing to 10000.
pub proof fn lemma_wf_preserved(m: RouterModel, admin: Address, caller: Seq<char>, routes: Seq<Route>)
    requires
        m.wf(),
    ensures
        m.initialize(admin).wf(),
        m.set_routes(caller, routes).1.wf(),
{
}

/// Routing never pays out more than it pulls in, and what stays behind in
/// the contract, the rounding of the shares, is less than one unit per
/// destination.
pub proof fn lemma_route_conserves(m: RouterModel, sender: Address, asset: Address, total_amount: i128)
    requires
        m.wf(),
        m.route_fits(total_amount),
        m.route(sender, asset, total_amount) is Ok,
    ensures
        ({
            let ts = m.route(sender, asset, total_amount).unwrap();
            &&& 0 <= net_flow_total(ts)
            &&& net_flow_total(ts) < m.routes.unwrap().len()
        }),
{
    let routes = m.routes.unwrap();
    let first = Transfer::Incoming { asset, from: sender, amount: total_amount };
    lemma_payouts_flow(routes, asset, total_amount, first);
    lemma_share_sum_bounds(routes, total_amount);
    assert(total_amount * bps_total(routes) == total_amount * 10000);
}

proof fn lemma_share_sum_exact(routes: Seq<Route>, total: i128)
    requires
        total > 0,
        forall|i: int| 0 <= i < routes.len() ==> (total * #[trigger] routes[i].bps) % (TOTAL_BPS as int) == 0,
    ensures
        TOTAL_BPS * share_sum(routes, total) == total * bps_total(routes),
    decreases routes.len(),
{
    if routes.len() > 0 {
        let rest = routes.drop_last();
        assert forall|i: int| 0 <= i < rest.len() implies (total * #[trigger] rest[i].bps) % (
        TOTAL_BPS as int) == 0 by {
            assert(rest[i] == routes[i]);
        }
        lemma_share_sum_exact(rest, total);
        let x = routes.last().bps as int;
        assert((total * routes[routes.len() - 1].bps) % (TOTAL_BPS as int) == 0);
        let b = bps_total(rest);
        assert(total * (b + x) == total * b + total * x) by (nonlinear_arith);
    }
}

/// When every share divides exactly, routing keeps nothing behind: the
/// destinations are paid the whole amount pulled in.
pub proof fn lemma_route_exact_split(m: RouterModel, sender: Address, asset: Address, total_amount: i128)
    requires
        m.wf(),
        m.route_fits(total_amount),
        m.route(sender, asset, total_amount) is Ok,
        forall|i: int|
            0 <= i < m.routes.unwrap().len() ==> (total_amount * #[trigger] m.routes.unwrap()[i].bps)
                % (TOTAL_BPS as int) == 0,
    ensures
        net_flow_total(m.route(sender, asset, total_amount).unwrap()) == 0,
{
    let routes = m.routes.unwrap();
    let first = Transfer::Incoming { asset, from: sender, amount: total_amount };
    lemma_payouts_flow(routes, asset, total_amount, first);
    lemma_share_sum_exact(routes, total_amount);
    assert(total_amount * bps_total(routes) == total_amount * 10000);
}

/// After the admin sets a valid routing table, it reads back unchanged.
pub proof fn lemma_set_then_get(m: RouterModel, caller: Seq<char>, routes: Seq<Route>)
    requires
        m.set_routes(caller, routes).0 is Ok,
    ensures
        m.set_routes(caller, routes).1.get_routes() == routes,
{
}

/// The payout to a destination of a routing table.
pub open spec fn payout_to(route: Route, asset: Address, total: i128) -> Transfer {
    Transfer::Outgoing { asset, to: route.destination, amount: ((total * route.bps) / 10000) as i128 }
}

/// Whether a destination's share of `total` is worth at least one unit.
pub open spec fn is_paid(route: Route, total: i128) -> bool {
    (total * route.bps) / 10000 > 0
}

proof fn lemma_payouts_sources(routes: Seq<Route>, asset: Address, total: i128)
    ensures
        payouts(routes, asset, total).len() <= routes.len(),
        forall|j: int|
            0 <= j < payouts(routes, asset, total).len() ==> exists|i: int|
                0 <= i < routes.len() && is_paid(routes[i], total) && #[trigger] payouts(
                    routes,
                    asset,
                    total,
                )[j] == payout_to(routes[i], asset, total),
    decreases routes.len(),
{
    if routes.len() > 0 {
        let rest = routes.drop_last();
        lemma_payouts_sources(rest, asset, total);
        let before = payouts(rest, asset, total);
        let cur = payouts(routes, asset, total);
        let n = routes.len() - 1;
        assert forall|j: int| 0 <= j < cur.len() implies exists|i: int|
            0 <= i < routes.len() && is_paid(routes[i], total) && #[trigger] cur[j] == payout_to(
                routes[i],
                asset,
                total,
            ) by {
            if j < before.len() {
                let i = choose|i: int|
                    0 <= i < rest.len() && is_paid(rest[i], total) && #[trigger] before[j]
                        == payout_to(rest[i], asset, total);
                assert(rest[i] == routes[i]);
                assert(cur[j] == before[j]);
            } else {
                assert(cur[j] == payout_to(routes[n], asset, total));
            }
        }
    }
}

proof fn lemma_payouts_cover(routes: Seq<Route>, asset: Address, total: i128)
    ensures
        forall|i: int|
            0 <= i < routes.len() && #[trigger] is_paid(routes[i], total) ==> exists|j: int|
                0 <= j < payouts(routes, asset, total).len() && payouts(routes, asset, total)[j]
                    == payout_to(routes[i], asset, total),
    decreases routes.len(),
{
    if routes.len() > 0 {
        let rest = routes.drop_last();
        lemma_payouts_cover(rest, asset, total);
        let before = payouts(rest, asset, total);
        let cur = payouts(routes, asset, total);
        let n = routes.len() - 1;
        assert forall|i: int| 0 <= i < routes.len() && #[trigger] is_paid(routes[i], total) implies exists|
            j: int,
        | 0 <= j < cur.len() && cur[j] == payout_to(routes[i], asset, total) by {
            if i < n {
                assert(rest[i] == routes[i]);
                assert(is_paid(rest[i], total));
                let j = choose|j: int|
                    0 <= j < before.len() && before[j] == payout_to(rest[i], asset, total);
                assert(cur[j] == before[j]);
            } else {
                assert(cur[before.len() as int] == payout_to(routes[n], asset, total));
            }
        }
    }
}

proof fn lemma_payouts_all_paid(routes: Seq<Route>, asset: Address, total: i128)
    requires
        forall|i: int| 0 <= i < routes.len() ==> #[trigger] is_paid(routes[i], total),
    ensures
        payouts(routes, asset, total) =~= routes.map_values(|r: Route| payout_to(r, asset, total)),
    decreases routes.len(),
{
    if routes.len() > 0 {
        let rest = routes.drop_last();
        assert forall|i: int| 0 <= i < rest.len() implies #[trigger] is_paid(rest[i], total) by {
            assert(rest[i] == routes[i]);
        }
        lemma_payouts_all_paid(rest, asset, total);
        assert(is_paid(routes[routes.len() - 1], total));
    }
}

/// What routing answers: a non-positive amount is refused with
/// `InvalidAmount`, and without a routing table the call is refused with
/// `NotFound`. Otherwise the whole amount is first pulled from the sender in
/// the given asset, and then each destination whose share is worth at least
/// one unit is paid `total * bps / 10000` (rounded down) of that asset; no
/// one else is paid, and when every share is worth something the payouts
/// follow the table one for one, in order.
pub proof fn lemma_route_answers(m: RouterModel, sender: Address, asset: Address, total_amount: i128)
    ensures
        total_amount <= 0 ==> m.route(sender, asset, total_amount) == Err::<Seq<Transfer>, Error>(
            Error::InvalidAmount,
        ),
        total_amount > 0 && m.routes is None ==> m.route(sender, asset, total_amount) == Err::<
            Seq<Transfer>,
            Error,
        >(Error::NotFound),
        total_amount > 0 && m.routes is Some ==> m.route(sender, asset, total_amount) is Ok,
        total_amount > 0 && m.routes is Some ==> 1 <= m.route(sender, asset, total_amount).unwrap().len()
            <= m.routes.unwrap().len() + 1,
        total_amount > 0 && m.routes is Some ==> m.route(sender, asset, total_amount).unwrap()[0]
            == (Transfer::Incoming { asset, from: sender, amount: total_amount }),
        total_amount > 0 && m.routes is Some ==> forall|j: int|
            1 <= j < m.route(sender, asset, total_amount).unwrap().len() ==> exists|i: int|
                0 <= i < m.routes.unwrap().len() && is_paid(m.routes.unwrap()[i], total_amount)
                    && #[trigger] m.route(sender, asset, total_amount).unwrap()[j] == payout_to(
                    m.routes.unwrap()[i],
                    asset,
                    total_amount,
                ),
        total_amount > 0 && m.routes is Some ==> forall|i: int|
            0 <= i < m.routes.unwrap().len() && #[trigger] is_paid(
                m.routes.unwrap()[i],
                total_amount,
            ) ==> exists|j: int|
                1 <= j < m.route(sender, asset, total_amount).unwrap().len() && m.route(
                    sender,
                    asset,
                    total_amount,
                ).unwrap()[j] == payout_to(m.routes.unwrap()[i], asset, total_amount),
        (total_amount > 0 && m.routes is Some && (forall|i: int|
            0 <= i < m.routes.unwrap().len() ==> #[trigger] is_paid(
                m.routes.unwrap()[i],
                total_amount,
            )) ==> m.route(sender, asset, total_amount).unwrap() == seq![
            (Transfer::Incoming { asset, from: sender, amount: total_amount }),
        ] + m.routes.unwrap().map_values(|r: Route| payout_to(r, asset, total_amount))),
{
    if total_amount > 0 && m.routes is Some {
        let routes = m.routes.unwrap();
        lemma_payouts_sources(routes, asset, total_amount);
        lemma_payouts_cover(routes, asset, total_amount);
        let first = Transfer::Incoming { asset, from: sender, amount: total_amount };
        let p = payouts(routes, asset, total_amount);
        let ts = seq![first] + p;
        assert(ts == m.route(sender, asset, total_amount).unwrap());
        assert forall|j: int| 1 <= j < ts.len() implies exists|i: int|
            0 <= i < routes.len() && is_paid(routes[i], total_amount) && #[trigger] ts[j]
                == payout_to(routes[i], asset, total_amount) by {
            assert(ts[j] == p[j - 1]);
        }
        assert forall|i: int|
            0 <= i < routes.len() && #[trigger] is_paid(routes[i], total_amount) implies exists|
            j: int,
        | 1 <= j < ts.len() && ts[j] == payout_to(routes[i], asset, total_amount) by {
            let j = choose|j: int|
                0 <= j < p.len() && p[j] == payout_to(routes[i], asset, total_amount);
            assert(ts[j + 1] == p[j]);
        }
        if forall|i: int| 0 <= i < routes.len() ==> #[trigger] is_paid(routes[i], total_amount) {
            lemma_payouts_all_paid(routes, asset, total_amount);
        }
    }
}

/// What setting a table answers: a caller other than the admin is refused
/// with `Unauthorized`, and a table whose basis points do not sum to exactly
/// 10000 with `InvalidAmount`, both leaving the state as it was. An admin's
/// table that sums to 10000 is accepted and becomes the stored table,
/// replacing whatever table was stored before; the admin stays.
pub proof fn lemma_set_routes_answers(m: RouterModel, caller: Seq<char>, routes: Seq<Route>)
    requires
        m.admin is Some,
    ensures
        caller != m.admin.unwrap()@ ==> m.set_routes(caller, routes) == (
            Err::<(), Error>(Error::Unauthorized),
            m,
        ),
        caller == m.admin.unwrap()@ && bps_total(routes) != 10000 ==> m.set_routes(caller, routes)
            == (Err::<(), Error>(Error::InvalidAmount), m),
        caller == m.admin.unwrap()@ && bps_total(routes) == 10000 ==> {
            let (r, m2) = m.set_routes(caller, routes);
            &&& r == Ok::<(), Error>(())
            &&& m2.admin == m.admin
            &&& m2.routes == Some(routes)
            &&& m2.get_routes() == routes
        },
{
}

/// The routes read back are the stored table, or none when no table is set;
/// initializing sets the admin and keeps the table.
pub proof fn lemma_get_routes_and_initialize(m: RouterModel, admin: Address)
    ensures
        m.routes matches Some(rs) ==> m.get_routes() == rs,
        m.routes is None ==> m.get_routes().len() == 0,
        m.initialize(admin).admin == Some(admin),
        m.initialize(admin).routes == m.routes,
{
}

// ---------------------------------------------------------------------------
// The contract
// ---------------------------------------------------------------------------

/// Routes a single payment to several destinations by basis-point splits.
///
/// The fields are the contract's storage: the host persists them between
/// calls and hands them back unchanged.
pub struct PaymentRouterContract {
    pub admin: Option<Address>,
    pub routes: Option<Vec<Route>>,
}

impl View for PaymentRouterContract {
    type V = RouterModel;

    open spec fn view(&self) -> RouterModel {
        RouterModel {
            admin: self.admin,
            routes: match self.routes {
                Some(v) => Some(v@),
                None => None,
            },
        }
    }
}

fn clone_routes(routes: &Vec<Route>) -> (r: Vec<Route>)
    ensures
        r@ == routes@,
{
    let mut out: Vec<Route> = Vec::new();
    let mut i: usize = 0;
    while i < routes.len()
        invariant
            i <= routes@.len(),
            out@ == routes@.take(i as int),
        decreases routes@.len() - i,
    {
        out.push(routes[i].clone());
        i = i + 1;
        assert(out@ =~= routes@.take(i as int));
    }
    assert(routes@.take(i as int) =~= routes@);
    out
}

impl PaymentRouterContract {
    pub open spec fn wf(&self) -> bool {
        self@.wf()
    }

    /// A contract with empty storage.
    pub fn new() -> (r: Self)
        ensures
            r.wf(),
            r@.admin is None,
            r@.routes is None,
    {
        PaymentRouterContract { admin: None, routes: None }
    }

    pub fn initialize(&mut self, admin: Address)
        requires
            old(self).wf(),
        ensures
            final(self).wf(),
            final(self)@ == old(self)@.initialize(admin),
    {
        self.admin = Some(admin);
    }

    /// Set routing table. BPS must sum to 10000 (100%); a table whose basis
    /// points sum to anything else, however large, is refused.
    pub fn set_routes(&mut self, caller: Address, routes: Vec<Route>) -> (r: Result<(), Error>)
        requires
            old(self).wf(),
            old(self)@.admin is Some,
        ensures
            final(self).wf(),
            (r, final(self)@) == old(self)@.set_routes(caller@, routes@),
    {
        let admin = self.admin.as_ref().unwrap();
        if !caller.same_as(admin) {
            return Err(Error::Unauthorized);
        }
        let mut total: u64 = 0;
        let mut i: usize = 0;
        while i < routes.len()
            invariant
                i <= routes@.len(),
                total == bps_total(routes@.take(i as int)),
                total <= TOTAL_BPS,
                self@ == old(self)@,
                self.wf(),
                caller@ == old(self)@.admin.unwrap()@,
            decreases routes@.len() - i,
        {
            assert(routes@.take(i + 1).drop_last() =~= routes@.take(i as int));
            total = total + routes[i].bps as u64;
            i = i + 1;
            if total > TOTAL_BPS as u64 {
                proof {
                    lemma_bps_prefix(routes@, i as int);
                }
                return Err(Error::InvalidAmount);
            }
        }
        assert(routes@.take(i as int) =~= routes@);
        if total != TOTAL_BPS as u64 {
            return Err(Error::InvalidAmount);
        }
        self.routes = Some(routes);
        Ok(())
    }

    /// Route a payment across all configured destinations proportionally.
    pub fn route(&self, sender: Address, asset: Address, total_amount: i128) -> (r: Result<
        Vec<Transfer>,
        Error,
    >)
        requires
            self.wf(),
            self@.route_fits(total_amount),
        ensures
            match r {
                Ok(v) => self@.route(sender, asset, total_amount) == Ok::<Seq<Transfer>, Error>(v@),
                Err(e) => self@.route(sender, asset, total_amount) == Err::<Seq<Transfer>, Error>(e),
            },
    {
        if total_amount <= 0 {
            return Err(Error::InvalidAmount);
        }
        let routes = match &self.routes {
            Some(routes) => routes,
            None => return Err(Error::NotFound),
        };
        let mut out: Vec<Transfer> = Vec::new();
        let ghost first = Transfer::Incoming { asset, from: sender, amount: total_amount };
        out.push(Transfer::Incoming { asset: asset.clone(), from: sender, amount: total_amount });
        let mut i: usize = 0;
        while i < routes.len()
            invariant
                i <= routes@.len(),
                total_amount > 0,
                forall|j: int|
                    0 <= j < routes@.len() ==> total_amount * #[trigger] routes@[j].bps
                        <= i128::MAX,
                out@ == seq![first] + payouts(routes@.take(i as int), asset, total_amount),
            decreases routes@.len() - i,
        {
            assert(routes@.take(i + 1).drop_last() =~= routes@.take(i as int));
            let bps = routes[i].bps;
            assert(total_amount * bps <= i128::MAX);
            assert(total_amount * bps >= 0) by (nonlinear_arith)
                requires
                    total_amount > 0,
            ;
            let amount = total_amount * (bps as i128) / 10_000;
            if amount > 0 {
                out.push(
                    Transfer::Outgoing {
                        asset: asset.clone(),
                        to: routes[i].destination.clone(),
                        amount,
                    },
                );
            }
            i = i + 1;
            assert(out@ =~= seq![first] + payouts(routes@.take(i as int), asset, total_amount));
        }
        assert(routes@.take(i as int) =~= routes@);
        Ok(out)
    }

    pub fn get_routes(&self) -> (r: Vec<Route>)
        ensures
            r@ == self@.get_routes(),
    {
        match &self.routes {
            Some(routes) => clone_routes(routes),
            None => Vec::new(),
        }
    }
}

/// Get the current admin address.
pub fn get_admin(contract: &PaymentRouterContract) -> (r: Option<Address>)
    ensures
        r == contract@.admin,
{
    match &contract.admin {
        Some(admin) => Some(admin.clone()),
        None => None,
    }
}

} // verus!
