//! The contract controller: one instance per contract, stateless per call.
//! It dispatches each incoming operation to the registry, the authorization
//! check and the distributor, and assembles the response the host commits
//! atomically with the call.  No operation mutates state before a
//! precondition that can fail has been checked.

use vstd::prelude::*;
use crate::decimal::{dec_digits, render_u128, render_usize};
use crate::distribution::{distribute, sum_amounts};
use crate::error::ContractError;
use crate::messages::{
    AdminsListResp, ExecuteMsg, GreetResp, InstantiateMsg, JoinTimeResp, QueryAnswer, QueryMsg,
};
use crate::payment::{donated_amount, valid_payment, Coin, PaymentFault};
use crate::registry::{has_addr, keys_after, time_of, AdminRecord, Registry};
use crate::response::{attr_is, Attribute, Event, Response};

verus! {

/// Some string in the list reads as the identity `a`.
pub open spec fn in_list(l: Seq<String>, a: Seq<char>) -> bool {
    exists|i: int| 0 <= i < l.len() && l[i]@ == a
}

/// Extending a prefix of the list by one element extends what it names by
/// exactly that element's identity.
proof fn lemma_in_list_step(l: Seq<String>, i: int)
    requires
        0 <= i < l.len(),
    ensures
        forall|a: Seq<char>|
            #[trigger] in_list(l.take(i + 1), a) == (in_list(l.take(i), a) || l[i]@ == a),
{
    assert forall|a: Seq<char>|
        #[trigger] in_list(l.take(i + 1), a) == (in_list(l.take(i), a) || l[i]@ == a) by {
        if in_list(l.take(i + 1), a) {
            let k = choose|k: int| 0 <= k < l.take(i + 1).len() && (#[trigger] l.take(i + 1)[k])@ == a;
            if k < i {
                assert(l.take(i)[k]@ == a);
            }
        }
        if in_list(l.take(i), a) {
            let k = choose|k: int| 0 <= k < l.take(i).len() && (#[trigger] l.take(i)[k])@ == a;
            assert(l.take(i + 1)[k]@ == a);
        }
        if l[i]@ == a {
            assert(l.take(i + 1)[i]@ == a);
        }
    }
}

/// The response of a successful add-members call: the `add_members` action
/// attribute, the count of identities processed (the raw input length, with
/// duplicates counted once per occurrence), and one `admin_added` event per
/// input identity.
pub open spec fn add_members_response(resp: Response, admins: Seq<String>) -> bool {
    &&& resp.attributes@.len() == 2
    &&& attr_is(resp.attributes@[0], "action"@, "add_members"@)
    &&& attr_is(resp.attributes@[1], "added_count"@, dec_digits(admins.len() as nat))
    &&& resp.events@.len() == admins.len()
    &&& forall|i: int|
        0 <= i < admins.len() ==> {
            &&& (#[trigger] resp.events@[i]).ty@ == "admin_added"@
            &&& resp.events@[i].attributes@.len() == 1
            &&& attr_is(resp.events@[i].attributes@[0], "addr"@, admins[i]@)
        }
    &&& resp.messages@.len() == 0
}

/// How add-members moves the registry: every listed identity is registered
/// with join-time `time` (the last write wins, so a duplicate stays a single
/// entry), every other identity keeps its membership and join-time.
pub open spec fn members_upserted(
    s0: Seq<AdminRecord>,
    s1: Seq<AdminRecord>,
    admins: Seq<String>,
    time: u64,
) -> bool {
    &&& forall|a: Seq<char>| #[trigger] has_addr(s1, a) == (has_addr(s0, a) || in_list(admins, a))
    &&& forall|a: Seq<char>| in_list(admins, a) ==> #[trigger] time_of(s1, a) == time
    &&& forall|a: Seq<char>|
        !in_list(admins, a) && has_addr(s0, a) ==> #[trigger] time_of(s1, a) == time_of(s0, a)
}

/// What an add-members call does, authorized or not.
pub open spec fn members_change(
    pre: Seq<AdminRecord>,
    post: Seq<AdminRecord>,
    r: Result<Response, ContractError>,
    caller: Seq<char>,
    admins: Seq<String>,
    time: u64,
) -> bool {
    &&& !has_addr(pre, caller) ==> (r matches Err(e) && (e matches ContractError::Unauthorized {
        sender,
    } && sender@ == caller) && post == pre)
    &&& has_addr(pre, caller) ==> (r matches Ok(resp) && add_members_response(resp, admins)
        && members_upserted(pre, post, admins, time))
}

/// The response of a leave call.
pub open spec fn leave_response(resp: Response, sender: Seq<char>) -> bool {
    &&& resp.attributes@.len() == 2
    &&& attr_is(resp.attributes@[0], "action"@, "leave"@)
    &&& attr_is(resp.attributes@[1], "sender"@, sender)
    &&& resp.events@.len() == 0
    &&& resp.messages@.len() == 0
}

/// What a leave call does: the caller is no longer registered, nobody else
/// moves, and a caller who was no member changes nothing at all.
pub open spec fn leave_change(
    pre: Seq<AdminRecord>,
    post: Seq<AdminRecord>,
    resp: Response,
    caller: Seq<char>,
) -> bool {
    &&& !has_addr(post, caller)
    &&& forall|b: Seq<char>| b != caller ==> #[trigger] has_addr(post, b) == has_addr(pre, b)
    &&& forall|b: Seq<char>|
        b != caller && has_addr(pre, b) ==> #[trigger] time_of(post, b) == time_of(pre, b)
    &&& !has_addr(pre, caller) ==> post == pre
    &&& post.len() == pre.len() - (if has_addr(pre, caller) {
        1int
    } else {
        0int
    })
    &&& leave_response(resp, caller)
}

/// The response of a successful donation of `total` over the registry `s`:
/// one equal share to each admin in registry order, the remainder back to
/// the sender, and the three status attributes.
pub open spec fn donate_response(
    resp: Response,
    s: Seq<AdminRecord>,
    total: u128,
    denom: Seq<char>,
    sender: Seq<char>,
) -> bool {
    &&& resp.messages@.len() == s.len() + 1
    &&& forall|i: int|
        0 <= i < s.len() ==> {
            &&& (#[trigger] resp.messages@[i]).to@ == s[i].addr@
            &&& resp.messages@[i].amount == (total as int) / (s.len() as int)
            &&& resp.messages@[i].denom@ == denom
        }
    &&& resp.messages@[s.len() as int].to@ == sender
    &&& resp.messages@[s.len() as int].amount == (total as int) % (s.len() as int)
    &&& resp.messages@[s.len() as int].denom@ == denom
    &&& sum_amounts(resp.messages@) == total
    &&& resp.attributes@.len() == 3
    &&& attr_is(resp.attributes@[0], "action"@, "donate"@)
    &&& attr_is(resp.attributes@[1], "amount"@, dec_digits(total as nat))
    &&& attr_is(resp.attributes@[2], "per_admin"@, dec_digits(
        ((total as int) / (s.len() as int)) as nat,
    ))
    &&& resp.events@.len() == 0
}

/// What a donation call returns, for every shape of the attached payment and
/// every registry: the exact fault for a rejected payment, the division
/// guard for an empty registry, and the exact split otherwise.
pub open spec fn donate_outcome(
    r: Result<Response, ContractError>,
    s: Seq<AdminRecord>,
    funds: Seq<Coin>,
    denom: Seq<char>,
    sender: Seq<char>,
) -> bool {
    &&& funds.len() == 0 ==> (r matches Err(e) && e == ContractError::Payment(
        PaymentFault::NoFunds,
    ))
    &&& funds.len() > 1 ==> (r matches Err(e) && e == ContractError::Payment(
        PaymentFault::MultipleDenoms,
    ))
    &&& funds.len() == 1 && funds[0].amount == 0 ==> (r matches Err(e) && e
        == ContractError::Payment(PaymentFault::NoFunds))
    &&& funds.len() == 1 && funds[0].amount > 0 && funds[0].denom@ != denom ==> (r matches Err(e)
        && e matches ContractError::Payment(f) && f matches PaymentFault::MissingDenom(d) && d@
        == denom)
    &&& valid_payment(funds, denom) && s.len() == 0 ==> (r matches Err(e) && e
        == ContractError::NoAdmins)
    &&& valid_payment(funds, denom) && s.len() > 0 ==> (r matches Ok(resp) && donate_response(
        resp,
        s,
        funds[0].amount,
        denom,
        sender,
    ))
}

/// Some pair in the list carries the identity `a`.
pub open spec fn in_pairs(l: Seq<(String, u64)>, a: Seq<char>) -> bool {
    exists|i: int| 0 <= i < l.len() && (#[trigger] l[i]).0@ == a
}

/// `i` is the last pair of the list that carries its identity.
pub open spec fn last_pair_for(l: Seq<(String, u64)>, i: int) -> bool {
    forall|j: int| i < j < l.len() ==> (#[trigger] l[j]).0@ != l[i].0@
}

/// Extending a prefix of the pair list by one element extends what it names
/// by exactly that element's identity.
proof fn lemma_in_pairs_step(l: Seq<(String, u64)>, i: int)
    requires
        0 <= i < l.len(),
    ensures
        forall|a: Seq<char>|
            #[trigger] in_pairs(l.take(i + 1), a) == (in_pairs(l.take(i), a) || l[i].0@ == a),
{
    assert forall|a: Seq<char>|
        #[trigger] in_pairs(l.take(i + 1), a) == (in_pairs(l.take(i), a) || l[i].0@ == a) by {
        if in_pairs(l.take(i + 1), a) {
            let k = choose|k: int|
                0 <= k < l.take(i + 1).len() && (#[trigger] l.take(i + 1)[k]).0@ == a;
            if k < i {
                assert((l.take(i)[k]).0@ == a);
            }
        }
        if in_pairs(l.take(i), a) {
            let k = choose|k: int| 0 <= k < l.take(i).len() && (#[trigger] l.take(i)[k]).0@ == a;
            assert((l.take(i + 1)[k]).0@ == a);
        }
        if l[i].0@ == a {
            assert((l.take(i + 1)[i]).0@ == a);
        }
    }
}

/// Upsert law: after an add-members call names an identity — also when the
/// call names it twice, or when it was already registered — the registry
/// holds exactly one entry for it, carrying the join-time of the last write.
pub proof fn lemma_upsert_single_entry(
    s0: Seq<AdminRecord>,
    s1: Seq<AdminRecord>,
    admins: Seq<String>,
    time: u64,
    a: Seq<char>,
)
    requires
        crate::registry::sorted(s1),
        members_upserted(s0, s1, admins, time),
        in_list(admins, a),
    ensures
        has_addr(s1, a),
        time_of(s1, a) == time,
        forall|i: int, j: int|
            0 <= i < s1.len() && 0 <= j < s1.len() && s1[i].addr@ == a && s1[j].addr@ == a ==> i
                == j,
{
    crate::registry::lemma_index_of(s1, a);
}

/// One contract instance: its registry and its configured donation
/// denomination, both durable across calls.
pub struct Contract {
    pub registry: Registry,
    pub denom: String,
}

impl Contract {
    /// The invariant every operation preserves.
    pub open spec fn well_formed(&self) -> bool {
        self.registry.well_formed()
    }

    /// The registry contents.
    pub open spec fn admins(&self) -> Seq<AdminRecord> {
        self.registry@
    }

    /// The configured donation denomination.
    pub open spec fn denom_view(&self) -> Seq<char> {
        self.denom@
    }

    /// Initialization: register each listed identity at `time` and fix the
    /// donation denomination.  A duplicate in the list yields a single
    /// entry, carrying `time` like every other.
    pub fn instantiate(msg: InstantiateMsg, time: u64) -> (c: Contract)
        ensures
            c.well_formed(),
            c.denom_view() == msg.donation_denom@,
            forall|a: Seq<char>| #[trigger] has_addr(c.admins(), a) == in_list(msg.admins@, a),
            forall|a: Seq<char>|
                has_addr(c.admins(), a) ==> #[trigger] time_of(c.admins(), a) == time,
    {
        let mut registry = Registry::new();
        let n = msg.admins.len();
        let mut i: usize = 0;
        proof {
            assert(msg.admins@.take(0) =~= Seq::<String>::empty());
        }
        while i < n
            invariant
                i <= n,
                n == msg.admins@.len(),
                registry.well_formed(),
                forall|a: Seq<char>|
                    #[trigger] has_addr(registry@, a) == in_list(msg.admins@.take(i as int), a),
                forall|a: Seq<char>|
                    has_addr(registry@, a) ==> #[trigger] time_of(registry@, a) == time,
            decreases n - i,
        {
            let ghost pre = registry@;
            let added = msg.admins[i].clone();
            registry.put(added, time);
            proof {
                lemma_in_list_step(msg.admins@, i as int);
                assert forall|a: Seq<char>|
                    #[trigger] has_addr(registry@, a) == in_list(
                    msg.admins@.take(i as int + 1),
                    a,
                ) by {
                    if a != added@ {
                        assert(has_addr(registry@, a) == has_addr(pre, a));
                    }
                }
                assert forall|a: Seq<char>| has_addr(registry@, a) implies #[trigger] time_of(
                    registry@,
                    a,
                ) == time by {
                    if a != added@ {
                        assert(has_addr(pre, a));
                    }
                }
            }
            i += 1;
        }
        proof {
            assert(msg.admins@.take(n as int) =~= msg.admins@);
        }
        Contract { registry, denom: msg.donation_denom }
    }

    /// Rebuild a contract instance from persisted records and the configured
    /// denomination, upserting in list order: each identity is registered
    /// with the join-time of its last pair.
    pub fn from_parts(records: Vec<(String, u64)>, denom: String) -> (c: Contract)
        ensures
            c.well_formed(),
            c.denom_view() == denom@,
            forall|a: Seq<char>| #[trigger] has_addr(c.admins(), a) == in_pairs(records@, a),
            forall|i: int|
                0 <= i < records@.len() && last_pair_for(records@, i) ==> time_of(
                    c.admins(),
                    (#[trigger] records@[i]).0@,
                ) == records@[i].1,
    {
        let mut registry = Registry::new();
        let n = records.len();
        let mut i: usize = 0;
        proof {
            assert(records@.take(0) =~= Seq::<(String, u64)>::empty());
        }
        while i < n
            invariant
                i <= n,
                n == records@.len(),
                registry.well_formed(),
                forall|a: Seq<char>|
                    #[trigger] has_addr(registry@, a) == in_pairs(records@.take(i as int), a),
                forall|k: int|
                    0 <= k < i && last_pair_for(records@.take(i as int), k) ==> time_of(
                        registry@,
                        (#[trigger] records@[k]).0@,
                    ) == records@[k].1,
            decreases n - i,
        {
            let ghost pre = registry@;
            let added = records[i].0.clone();
            let at = records[i].1;
            registry.put(added, at);
            proof {
                lemma_in_pairs_step(records@, i as int);
                assert forall|a: Seq<char>|
                    #[trigger] has_addr(registry@, a) == in_pairs(
                    records@.take(i as int + 1),
                    a,
                ) by {
                    if a != added@ {
                        assert(has_addr(registry@, a) == has_addr(pre, a));
                    } else {
                        assert((records@.take(i as int + 1)[i as int]).0@ == a);
                    }
                }
                assert forall|k: int|
                    0 <= k < i + 1 && last_pair_for(records@.take(i as int + 1), k) implies time_of(
                    registry@,
                    (#[trigger] records@[k]).0@,
                ) == records@[k].1 by {
                    let a = records@[k].0@;
                    assert(records@.take(i as int + 1)[k] == records@[k]);
                    if k == i {
                        assert(a == added@);
                    } else {
                        assert(records@.take(i as int + 1)[i as int] == records@[i as int]);
                        assert(a != added@);
                        assert(last_pair_for(records@.take(i as int), k)) by {
                            assert forall|j: int| k < j < i implies (#[trigger] records@.take(
                                i as int,
                            )[j]).0@ != records@.take(i as int)[k].0@ by {
                                assert(records@.take(i as int + 1)[j] == records@[j]);
                            }
                        }
                        assert(has_addr(pre, a)) by {
                            assert((records@.take(i as int)[k]).0@ == a);
                        }
                        assert(time_of(registry@, a) == time_of(pre, a));
                    }
                }
            }
            i += 1;
        }
        proof {
            assert(records@.take(n as int) =~= records@);
        }
        Contract { registry, denom }
    }

    /// The authorization gate: a mutating membership change is permitted
    /// exactly when the caller is a current admin.  The first admins come
    /// from the initializer's list; there is no separate owner role.
    pub fn can_add_members(&self, caller: &String) -> (r: bool)
        requires
            self.well_formed(),
        ensures
            r == has_addr(self.admins(), caller@),
    {
        self.registry.contains(caller)
    }

    /// Add-members transition: only a current admin may call it; then every
    /// listed identity is upserted with join-time `time`, one event is
    /// emitted per input entry, and the reported count is the raw input
    /// length.  A non-admin caller gets `Unauthorized` and the registry is
    /// untouched.
    pub fn add_members(&mut self, caller: &String, admins: &Vec<String>, time: u64) -> (r: Result<
        Response,
        ContractError,
    >)
        requires
            old(self).well_formed(),
        ensures
            final(self).well_formed(),
            final(self).denom_view() == old(self).denom_view(),
            members_change(
                old(self).admins(),
                final(self).admins(),
                r,
                caller@,
                admins@,
                time,
            ),
    {
        if !self.can_add_members(caller) {
            return Err(ContractError::Unauthorized { sender: caller.clone() });
        }
        let n = admins.len();
        let mut events: Vec<Event> = Vec::new();
        let mut i: usize = 0;
        proof {
            assert(admins@.take(0) =~= Seq::<String>::empty());
        }
        while i < n
            invariant
                i <= n,
                n == admins@.len(),
                self.registry.well_formed(),
                self.denom == old(self).denom,
                events@.len() == i,
                forall|k: int|
                    0 <= k < i ==> {
                        &&& (#[trigger] events@[k]).ty@ == "admin_added"@
                        &&& events@[k].attributes@.len() == 1
                        &&& attr_is(events@[k].attributes@[0], "addr"@, admins@[k]@)
                    },
                forall|a: Seq<char>|
                    #[trigger] has_addr(self.registry@, a) == (has_addr(old(self).admins(), a)
                        || in_list(admins@.take(i as int), a)),
                forall|a: Seq<char>|
                    in_list(admins@.take(i as int), a) ==> #[trigger] time_of(self.registry@, a)
                        == time,
                forall|a: Seq<char>|
                    !in_list(admins@.take(i as int), a) && has_addr(old(self).admins(), a)
                        ==> #[trigger] time_of(self.registry@, a) == time_of(
                        old(self).admins(),
                        a,
                    ),
            decreases n - i,
        {
            let mut eattrs: Vec<Attribute> = Vec::new();
            eattrs.push(Attribute::make("addr", admins[i].clone()));
            events.push(Event { ty: "admin_added".to_owned(), attributes: eattrs });
            let ghost pre = self.registry@;
            let added = admins[i].clone();
            self.registry.put(added, time);
            proof {
                lemma_in_list_step(admins@, i as int);
                assert forall|a: Seq<char>|
                    #[trigger] has_addr(self.registry@, a) == (has_addr(old(self).admins(), a)
                        || in_list(admins@.take(i as int + 1), a)) by {
                    if a != added@ {
                        assert(has_addr(self.registry@, a) == has_addr(pre, a));
                    }
                }
                assert forall|a: Seq<char>|
                    in_list(admins@.take(i as int + 1), a) implies #[trigger] time_of(
                    self.registry@,
                    a,
                ) == time by {
                    if a != added@ {
                        assert(in_list(admins@.take(i as int), a));
                        assert(has_addr(pre, a));
                    }
                }
                assert forall|a: Seq<char>|
                    !in_list(admins@.take(i as int + 1), a) && has_addr(old(self).admins(), a)
                        implies #[trigger] time_of(self.registry@, a) == time_of(
                    old(self).admins(),
                    a,
                ) by {
                    assert(a != added@);
                    assert(has_addr(pre, a));
                }
            }
            i += 1;
        }
        proof {
            assert(admins@.take(n as int) =~= admins@);
        }
        let mut attributes: Vec<Attribute> = Vec::new();
        attributes.push(Attribute::make("action", "add_members".to_owned()));
        attributes.push(Attribute::make("added_count", render_usize(n)));
        Ok(Response { attributes, events, messages: Vec::new() })
    }

    /// Leave transition: the caller removes itself.  No authorization beyond
    /// acting on oneself, no error path; a non-member caller changes nothing.
    pub fn leave(&mut self, caller: &String) -> (resp: Response)
        requires
            old(self).well_formed(),
        ensures
            final(self).well_formed(),
            final(self).denom_view() == old(self).denom_view(),
            leave_change(old(self).admins(), final(self).admins(), resp, caller@),
    {
        self.registry.remove(caller);
        let mut attributes: Vec<Attribute> = Vec::new();
        attributes.push(Attribute::make("action", "leave".to_owned()));
        attributes.push(Attribute::make("sender", caller.clone()));
        Response { attributes, events: Vec::new(), messages: Vec::new() }
    }

    /// Donation: requires exactly one attached coin of positive amount in
    /// the configured denomination, and a non-empty registry (checked before
    /// any division).  Splits the amount per the distributor.  Pure over the
    /// registry: no state change.
    pub fn donate(&self, sender: &String, funds: &Vec<Coin>) -> (r: Result<Response, ContractError>)
        requires
            self.well_formed(),
        ensures
            donate_outcome(r, self.admins(), funds@, self.denom_view(), sender@),
    {
        match donated_amount(sender, funds, &self.denom) {
            Err(f) => Err(ContractError::Payment(f)),
            Ok(total) => {
                if self.registry.count() == 0 {
                    return Err(ContractError::NoAdmins);
                }
                let admin_names = self.registry.list();
                let msgs = distribute(total, &admin_names, &self.denom, sender);
                proof {
                    assert forall|i: int| 0 <= i < self.admins().len() implies {
                        &&& (#[trigger] msgs@[i]).to@ == self.admins()[i].addr@
                        &&& msgs@[i].amount == (total as int) / (self.admins().len() as int)
                        &&& msgs@[i].denom@ == self.denom_view()
                    } by {
                        assert(msgs@[i].to@ == admin_names@[i]@);
                    }
                }
                let mut attributes: Vec<Attribute> = Vec::new();
                attributes.push(Attribute::make("action", "donate".to_owned()));
                attributes.push(Attribute::make("amount", render_u128(total)));
                attributes.push(
                    Attribute::make("per_admin", render_u128(total / (admin_names.len() as u128))),
                );
                Ok(Response { attributes, events: Vec::new(), messages: msgs })
            },
        }
    }

    /// Dispatch of a mutating operation.
    pub fn execute(&mut self, caller: &String, funds: &Vec<Coin>, time: u64, msg: ExecuteMsg) -> (r:
        Result<Response, ContractError>)
        requires
            old(self).well_formed(),
        ensures
            final(self).well_formed(),
            final(self).denom_view() == old(self).denom_view(),
            (msg matches ExecuteMsg::AddMembers { admins } ==> members_change(
                old(self).admins(),
                final(self).admins(),
                r,
                caller@,
                admins@,
                time,
            )),
            (msg matches ExecuteMsg::Leave {  } ==> (r matches Ok(resp) && leave_change(
                old(self).admins(),
                final(self).admins(),
                resp,
                caller@,
            ))),
            (msg matches ExecuteMsg::Donate {  } ==> final(self).admins() == old(self).admins()
                && donate_outcome(
                r,
                old(self).admins(),
                funds@,
                old(self).denom_view(),
                caller@,
            )),
            (r matches Err(e) ==> final(self).admins() == old(self).admins()),
    {
        match msg {
            ExecuteMsg::AddMembers { admins } => self.add_members(caller, &admins, time),
            ExecuteMsg::Leave {  } => Ok(self.leave(caller)),
            ExecuteMsg::Donate {  } => self.donate(caller, funds),
        }
    }

    /// The fixed greeting.
    pub fn greet() -> (r: GreetResp)
        ensures
            r.message@ == "Hello world!"@,
    {
        GreetResp { message: "Hello world!".to_owned() }
    }

    /// All current admins, in ascending identity order.
    pub fn admin_list(&self) -> (r: AdminsListResp)
        ensures
            r.admins@.len() == self.admins().len(),
            forall|i: int|
                0 <= i < r.admins@.len() ==> (#[trigger] r.admins@[i])@ == self.admins()[i].addr@,
    {
        AdminsListResp { admins: self.registry.list() }
    }

    /// When `admin` joined; `NotFound` for an identity that is not
    /// registered.
    pub fn join_time(&self, admin: &String) -> (r: Result<JoinTimeResp, ContractError>)
        requires
            self.well_formed(),
        ensures
            has_addr(self.admins(), admin@) ==> (r matches Ok(j) && j.joined == time_of(
                self.admins(),
                admin@,
            )),
            !has_addr(self.admins(), admin@) ==> (r matches Err(e)
                && (e matches ContractError::NotFound { addr } && addr@ == admin@)),
    {
        match self.registry.get(admin) {
            Some(t) => Ok(JoinTimeResp { joined: t }),
            None => Err(ContractError::NotFound { addr: admin.clone() }),
        }
    }

    /// The admins whose join-time is strictly greater than `timestamp`, in
    /// ascending identity order.
    pub fn admins_after_block_time(&self, timestamp: u64) -> (r: AdminsListResp)
        ensures
            r.admins.deep_view() == keys_after(self.admins(), timestamp),
    {
        AdminsListResp { admins: self.registry.list_after(timestamp) }
    }

    /// Dispatch of a read-only operation.
    pub fn query(&self, msg: QueryMsg) -> (r: Result<QueryAnswer, ContractError>)
        requires
            self.well_formed(),
        ensures
            (msg matches QueryMsg::Greet {  } ==> (r matches Ok(ans)
                && ans matches QueryAnswer::Greeting(g) && g.message@ == "Hello world!"@)),
            (msg matches QueryMsg::AdminsList {  } ==> (r matches Ok(ans)
                && ans matches QueryAnswer::Admins(l) && l.admins@.len() == self.admins().len()
                && (forall|i: int|
                0 <= i < l.admins@.len() ==> (#[trigger] l.admins@[i])@
                    == self.admins()[i].addr@))),
            (msg matches QueryMsg::JoinTime { admin } ==> {
                &&& has_addr(self.admins(), admin@) ==> (r matches Ok(ans)
                    && ans matches QueryAnswer::Joined(j) && j.joined == time_of(
                    self.admins(),
                    admin@,
                ))
                &&& !has_addr(self.admins(), admin@) ==> (r matches Err(e)
                    && (e matches ContractError::NotFound { addr } && addr@ == admin@))
            }),
            (msg matches QueryMsg::AdminsAfterBlockTime { timestamp } ==> (r matches Ok(ans)
                && ans matches QueryAnswer::Admins(l) && l.admins.deep_view() == keys_after(
                self.admins(),
                timestamp,
            ))),
    {
        match msg {
            QueryMsg::Greet {  } => Ok(QueryAnswer::Greeting(Self::greet())),
            QueryMsg::AdminsList {  } => Ok(QueryAnswer::Admins(self.admin_list())),
            QueryMsg::JoinTime { admin } => {
                match self.join_time(&admin) {
                    Ok(j) => Ok(QueryAnswer::Joined(j)),
                    Err(e) => Err(e),
                }
            },
            QueryMsg::AdminsAfterBlockTime { timestamp } => {
                Ok(QueryAnswer::Admins(self.admins_after_block_time(timestamp)))
            },
        }
    }
}

} // verus!
