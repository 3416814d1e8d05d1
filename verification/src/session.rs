//! The session protocol's decisions: configuration validation, role
//! resolution, and the join-then-validate aggregation rules, including
//! the end-to-end consistency invariant of a signing round.
//!
//! Everything here is a pure function from configuration and collected
//! results to roles and outcomes; performing the per-party work and the
//! rendezvous round-trips belongs to the caller, who runs one unit per
//! resolved role, waits for every unit, and only then hands the results
//! back for aggregation.

use vstd::prelude::*;

use crate::algo::{Algorithm, CoreError};
use crate::keystore::Keystore;
use crate::sig::{sig_eq, Signature};

verus! {

/// What a protocol round does.
#[derive(Clone, Copy, PartialEq, Eq, Structural, Debug)]
pub enum RoundKind {
    Keygen,
    Reshare,
    Sign,
}

/// The input of one protocol round: who is asked to attend, the
/// threshold, the suite, and, for reshare rounds, the post-reshare
/// roster with its own threshold.  Immutable for the round's duration.
pub struct SessionConfig {
    pub round: RoundKind,
    pub roster: Vec<(String, bool)>,
    pub threshold: u64,
    pub roster_next: Vec<(String, bool)>,
    pub threshold_next: u64,
    pub algorithm: Algorithm,
}

/// Mathematical view of a [`SessionConfig`].
pub struct SessionConfigView {
    pub round: RoundKind,
    pub roster: Seq<(Seq<char>, bool)>,
    pub threshold: u64,
    pub roster_next: Seq<(Seq<char>, bool)>,
    pub threshold_next: u64,
    pub algorithm: Algorithm,
}

impl View for SessionConfig {
    type V = SessionConfigView;

    open spec fn view(&self) -> SessionConfigView {
        SessionConfigView {
            round: self.round,
            roster: self.roster.deep_view(),
            threshold: self.threshold,
            roster_next: self.roster_next.deep_view(),
            threshold_next: self.threshold_next,
            algorithm: self.algorithm,
        }
    }
}

/// The names marked attending, in roster order.
pub open spec fn attending(r: Seq<(Seq<char>, bool)>) -> Seq<Seq<char>>
    decreases r.len(),
{
    if r.len() == 0 {
        Seq::empty()
    } else {
        let rest = attending(r.drop_last());
        if r.last().1 {
            rest.push(r.last().0)
        } else {
            rest
        }
    }
}

/// No name appears twice.
pub open spec fn distinct_names(r: Seq<(Seq<char>, bool)>) -> bool {
    forall|i: int, j: int| 0 <= i < j < r.len() ==> r[i].0 != r[j].0
}

/// The consumers that are not also providers, in consumer order.
pub open spec fn exclusive_of(consumers: Seq<Seq<char>>, providers: Seq<Seq<char>>) -> Seq<
    Seq<char>,
>
    decreases consumers.len(),
{
    if consumers.len() == 0 {
        Seq::empty()
    } else {
        let rest = exclusive_of(consumers.drop_last(), providers);
        if providers.contains(consumers.last()) {
            rest
        } else {
            rest.push(consumers.last())
        }
    }
}

/// Internal consistency of a session configuration: distinct names, at
/// least one attending party, the threshold below the roster size — for
/// a signing round, strictly more attending parties than the threshold —
/// and a second roster only for reshare rounds, valid in the same way.
pub open spec fn spec_config_ok(c: SessionConfigView) -> bool {
    match c.round {
        RoundKind::Keygen => {
            &&& distinct_names(c.roster)
            &&& attending(c.roster).len() >= 1
            &&& (c.threshold as nat) < c.roster.len()
            &&& c.roster_next.len() == 0
        },
        RoundKind::Reshare => {
            &&& distinct_names(c.roster)
            &&& distinct_names(c.roster_next)
            &&& attending(c.roster).len() >= 1
            &&& attending(c.roster_next).len() >= 1
            &&& (c.threshold as nat) < c.roster.len()
            &&& (c.threshold_next as nat) < c.roster_next.len()
        },
        RoundKind::Sign => {
            &&& distinct_names(c.roster)
            &&& attending(c.roster).len() > c.threshold as nat
            &&& c.roster_next.len() == 0
        },
    }
}

/// The resolved roles of one round: who does what, by name.
#[derive(Debug)]
pub enum Roles {
    /// Every attending party contributes a keygen share.
    Keygen { participants: Vec<String> },
    /// Providers supply their pre-reshare keystores; exclusive consumers
    /// attend only the post-reshare roster and receive fresh shares; a
    /// party attending both rosters is provider and consumer at once and
    /// stands in the providers alone.
    Reshare { providers: Vec<String>, exclusive_consumers: Vec<String> },
    /// The signer set, whose size exceeds the threshold.
    Sign { signers: Vec<String> },
}

/// The names marked attending, cloned in roster order.
fn attending_exec(roster: &Vec<(String, bool)>) -> (r: Vec<String>)
    ensures
        r.deep_view() == attending(roster.deep_view()),
{
    let ghost rv = roster.deep_view();
    let mut out: Vec<String> = Vec::new();
    let mut i: usize = 0;
    while i < roster.len()
        invariant
            0 <= i <= roster@.len(),
            rv == roster.deep_view(),
            out.deep_view() == attending(rv.subrange(0, i as int)),
        decreases roster.len() - i,
    {
        proof {
            assert(rv.subrange(0, i as int + 1).drop_last() =~= rv.subrange(0, i as int));
            assert(rv.subrange(0, i as int + 1).last() == rv[i as int]);
            assert(rv[i as int] == (roster@[i as int].0@, roster@[i as int].1));
        }
        if roster[i].1 {
            let name = roster[i].0.clone();
            let ghost old_out = out.deep_view();
            out.push(name);
            proof {
                assert(out.deep_view() =~= old_out.push(rv[i as int].0));
            }
        }
        i += 1;
    }
    proof {
        assert(rv.subrange(0, rv.len() as int) =~= rv);
    }
    out
}

/// Whether any name appears twice in a roster.
fn check_distinct(roster: &Vec<(String, bool)>) -> (r: bool)
    ensures
        r == distinct_names(roster.deep_view()),
{
    let ghost rv = roster.deep_view();
    let mut i: usize = 0;
    while i < roster.len()
        invariant
            0 <= i <= roster@.len(),
            rv == roster.deep_view(),
            forall|a: int, b: int| 0 <= a < b < rv.len() && a < i ==> rv[a].0 != rv[b].0,
        decreases roster.len() - i,
    {
        let mut j: usize = i + 1;
        while j < roster.len()
            invariant
                0 <= i < j <= roster@.len(),
                rv == roster.deep_view(),
                forall|b: int| i < b < j ==> rv[i as int].0 != rv[b].0,
            decreases roster.len() - j,
        {
            if roster[i].0 == roster[j].0 {
                proof {
                    assert(rv[i as int].0 == rv[j as int].0);
                }
                return false;
            }
            proof {
                assert(rv[i as int].0 == roster@[i as int].0@);
                assert(rv[j as int].0 == roster@[j as int].0@);
            }
            j += 1;
        }
        i += 1;
    }
    true
}

/// Whether a list of names holds one name.
fn contains_name(names: &Vec<String>, name: &String) -> (r: bool)
    ensures
        r == names.deep_view().contains(name@),
{
    let ghost nv = names.deep_view();
    let mut i: usize = 0;
    while i < names.len()
        invariant
            0 <= i <= names@.len(),
            nv == names.deep_view(),
            forall|t: int| 0 <= t < i ==> nv[t] != name@,
        decreases names.len() - i,
    {
        if names[i].eq(name) {
            proof {
                assert(nv[i as int] == name@);
            }
            return true;
        }
        proof {
            assert(nv[i as int] == names@[i as int]@);
        }
        i += 1;
    }
    proof {
        if nv.contains(name@) {
            let t = choose|t: int| 0 <= t < nv.len() && nv[t] == name@;
            assert(false);
        }
    }
    false
}

/// The consumers that are not also providers.
fn exclusive_exec(consumers: &Vec<String>, providers: &Vec<String>) -> (r: Vec<String>)
    ensures
        r.deep_view() == exclusive_of(consumers.deep_view(), providers.deep_view()),
{
    let ghost cv = consumers.deep_view();
    let mut out: Vec<String> = Vec::new();
    let mut i: usize = 0;
    while i < consumers.len()
        invariant
            0 <= i <= consumers@.len(),
            cv == consumers.deep_view(),
            out.deep_view() == exclusive_of(cv.subrange(0, i as int), providers.deep_view()),
        decreases consumers.len() - i,
    {
        proof {
            assert(cv.subrange(0, i as int + 1).drop_last() =~= cv.subrange(0, i as int));
            assert(cv.subrange(0, i as int + 1).last() == cv[i as int]);
            assert(cv[i as int] == consumers@[i as int]@);
        }
        if !contains_name(providers, &consumers[i]) {
            let ghost old_out = out.deep_view();
            out.push(consumers[i].clone());
            proof {
                assert(out.deep_view() =~= old_out.push(cv[i as int]));
            }
        }
        i += 1;
    }
    proof {
        assert(cv.subrange(0, cv.len() as int) =~= cv);
    }
    out
}

/// Resolve the roles of a round from its configuration.
///
/// Succeeds exactly on internally consistent configurations and assigns
/// each attending party its role; an inconsistent configuration is
/// rejected with `InvalidRoster` before any unit starts, so a signer set
/// whose size does not exceed the threshold never signs.  Parties are
/// known by name here; post-reshare party indices all derive from one
/// roster's positions, so one index can never be claimed by an exclusive
/// consumer and a provider under different names.
pub fn resolve_roles(cfg: &SessionConfig) -> (res: Result<Roles, CoreError>)
    ensures
        (res is Ok) == spec_config_ok(cfg@),
        res matches Ok(roles) ==> match roles {
            Roles::Keygen { participants } => cfg@.round == RoundKind::Keygen
                && participants.deep_view() == attending(cfg@.roster),
            Roles::Reshare { providers, exclusive_consumers } => cfg@.round == RoundKind::Reshare
                && providers.deep_view() == attending(cfg@.roster)
                && exclusive_consumers.deep_view() == exclusive_of(
                attending(cfg@.roster_next),
                attending(cfg@.roster),
            ),
            Roles::Sign { signers } => cfg@.round == RoundKind::Sign && signers.deep_view()
                == attending(cfg@.roster),
        },
        res matches Err(e) ==> e == CoreError::InvalidRoster,
{
    if !check_distinct(&cfg.roster) {
        return Err(CoreError::InvalidRoster);
    }
    let att = attending_exec(&cfg.roster);
    match cfg.round {
        RoundKind::Keygen => {
            if att.len() == 0 || cfg.threshold >= cfg.roster.len() as u64
                || cfg.roster_next.len() != 0 {
                return Err(CoreError::InvalidRoster);
            }
            Ok(Roles::Keygen { participants: att })
        },
        RoundKind::Reshare => {
            if !check_distinct(&cfg.roster_next) {
                return Err(CoreError::InvalidRoster);
            }
            let att_next = attending_exec(&cfg.roster_next);
            if att.len() == 0 || att_next.len() == 0 || cfg.threshold >= cfg.roster.len() as u64
                || cfg.threshold_next >= cfg.roster_next.len() as u64 {
                return Err(CoreError::InvalidRoster);
            }
            let exclusive = exclusive_exec(&att_next, &att);
            Ok(Roles::Reshare { providers: att, exclusive_consumers: exclusive })
        },
        RoundKind::Sign => {
            if att.len() as u64 <= cfg.threshold || cfg.roster_next.len() != 0 {
                return Err(CoreError::InvalidRoster);
            }
            Ok(Roles::Sign { signers: att })
        },
    }
}

/// Every unit of the join reported a result.
pub open spec fn all_done(rs: Seq<Option<Signature>>) -> bool {
    forall|i: int| 0 <= i < rs.len() ==> rs[i] is Some
}

/// All reported signatures are field-wise equal.
pub open spec fn all_agree(rs: Seq<Option<Signature>>) -> bool {
    forall|i: int, j: int|
        0 <= i < rs.len() && 0 <= j < rs.len() ==> match (#[trigger] rs[i], #[trigger] rs[j]) {
            (Some(a), Some(b)) => a@ == b@,
            _ => true,
        }
}

/// Aggregate a signing round after the full join: every unit's result,
/// in roster order.
///
/// Succeeds exactly when at least one unit ran, every unit produced a
/// signature, and all signatures are field-wise equal; the common
/// signature is returned.  A missing result is the round's
/// `ProtocolError`; a divergent signature among complete results is a
/// `ConsistencyViolation`, never silently accepted.
pub fn aggregate_sign(results: &Vec<Option<Signature>>) -> (res: Result<Signature, CoreError>)
    ensures
        (res is Ok) == (results@.len() >= 1 && all_done(results@) && all_agree(results@)),
        res matches Ok(s) ==> results@[0] matches Some(first) && s@ == first@,
        res matches Err(e) ==> e == (if results@.len() == 0 || !all_done(results@) {
            CoreError::ProtocolError
        } else {
            CoreError::ConsistencyViolation
        }),
{
    if results.len() == 0 {
        return Err(CoreError::ProtocolError);
    }
    let mut i: usize = 0;
    while i < results.len()
        invariant
            0 <= i <= results@.len(),
            forall|t: int| 0 <= t < i ==> results@[t] is Some,
        decreases results.len() - i,
    {
        match &results[i] {
            Some(_) => (),
            None => {
                return Err(CoreError::ProtocolError);
            },
        }
        i += 1;
    }
    let first = match &results[0] {
        Some(s) => s,
        None => {
            return Err(CoreError::ProtocolError);
        },
    };
    let mut i: usize = 1;
    while i < results.len()
        invariant
            1 <= i <= results@.len(),
            results@[0] matches Some(f) && f == first,
            all_done(results@),
            forall|t: int|
                0 <= t < i ==> (#[trigger] results@[t] matches Some(s) && s@ == first@),
        decreases results.len() - i,
    {
        match &results[i] {
            Some(s) => {
                if !sig_eq(s, first) {
                    return Err(CoreError::ConsistencyViolation);
                }
            },
            None => {
                return Err(CoreError::ProtocolError);
            },
        }
        i += 1;
    }
    proof {
        assert(all_agree(results@));
    }
    Ok(first.duplicate())
}

/// Aggregate a keygen or reshare round after the full join: every
/// unit's keystore, in roster order.
///
/// Succeeds exactly when every unit produced a keystore; any unit's
/// failure fails the round with `ProtocolError` and discards the others'
/// results.
#[verifier::loop_isolation(false)]
pub fn aggregate_shares(results: Vec<Option<Keystore>>) -> (res: Result<Vec<Keystore>, CoreError>)
    ensures
        (res is Ok) == (forall|i: int| 0 <= i < results@.len() ==> (#[trigger] results@[i]) is Some),
        res matches Ok(ks) ==> ks@.len() == results@.len() && forall|i: int|
            0 <= i < ks@.len() ==> (#[trigger] results@[i] matches Some(k) && ks@[i] == k),
        res matches Err(e) ==> e == CoreError::ProtocolError,
{
    let ghost rv = results@;
    let mut rest = results;
    let mut out: Vec<Keystore> = Vec::new();
    while rest.len() > 0
        invariant
            out@.len() + rest@.len() == rv.len(),
            rest@ == rv.subrange(out@.len() as int, rv.len() as int),
            forall|i: int| 0 <= i < out@.len() ==> (#[trigger] rv[i] matches Some(k) && out@[i] == k),
        decreases rest.len(),
    {
        let item = rest.remove(0);
        match item {
            Some(k) => {
                out.push(k);
                proof {
                    assert(rest@ =~= rv.subrange(out@.len() as int, rv.len() as int));
                }
            },
            None => {
                proof {
                    assert(results@ == rv);
                    assert(results@[out@.len() as int] is None);
                }
                return Err(CoreError::ProtocolError);
            },
        }
    }
    proof {
        assert(forall|i: int| 0 <= i < rv.len() ==> (#[trigger] rv[i]) is Some);
    }
    Ok(out)
}

/// Role partition correctness: a name is an exclusive consumer exactly
/// when it attends the post-reshare roster's consumer list and is not a
/// provider.
pub proof fn lemma_exclusive_partition(
    consumers: Seq<Seq<char>>,
    providers: Seq<Seq<char>>,
    name: Seq<char>,
)
    ensures
        exclusive_of(consumers, providers).contains(name) <==> (consumers.contains(name)
            && !providers.contains(name)),
    decreases consumers.len(),
{
    if consumers.len() == 0 {
        assert(!exclusive_of(consumers, providers).contains(name));
        assert(!consumers.contains(name));
    } else {
        let front = consumers.drop_last();
        let last = consumers.last();
        lemma_exclusive_partition(front, providers, name);
        let rest = exclusive_of(front, providers);
        if providers.contains(last) {
            assert(exclusive_of(consumers, providers) == rest);
            if consumers.contains(name) && !providers.contains(name) {
                let i = choose|i: int| 0 <= i < consumers.len() && consumers[i] == name;
                assert(i < front.len() && front[i] == name);
                assert(front.contains(name));
            }
            if front.contains(name) {
                let i = choose|i: int| 0 <= i < front.len() && front[i] == name;
                assert(consumers[i] == name);
                assert(consumers.contains(name));
            }
        } else {
            assert(exclusive_of(consumers, providers) == rest.push(last));
            if exclusive_of(consumers, providers).contains(name) {
                let i = choose|i: int|
                    0 <= i < rest.push(last).len() && rest.push(last)[i] == name;
                if i < rest.len() {
                    assert(rest.contains(name));
                    let j = choose|j: int| 0 <= j < front.len() && front[j] == name;
                    assert(consumers[j] == name);
                    assert(consumers.contains(name));
                } else {
                    assert(name == last);
                    assert(consumers.contains(name)) by {
                        assert(consumers[consumers.len() - 1] == last);
                    }
                }
            }
            if consumers.contains(name) && !providers.contains(name) {
                let i = choose|i: int| 0 <= i < consumers.len() && consumers[i] == name;
                if i < front.len() {
                    assert(front[i] == consumers[i]);
                    assert(front[i] == name);
                    assert(front.contains(name));
                    assert(rest.contains(name));
                    let j = choose|j: int| 0 <= j < rest.len() && rest[j] == name;
                    assert(rest.push(last)[j] == name);
                    assert(rest.push(last).contains(name));
                } else {
                    assert(name == last);
                    assert(rest.push(last)[rest.len() as int] == name);
                    assert(rest.push(last).contains(name));
                }
            }
        }
    }
}

/// A name attends a roster exactly when the roster marks it attending
/// somewhere.
pub proof fn lemma_attending_membership(r: Seq<(Seq<char>, bool)>, name: Seq<char>)
    ensures
        attending(r).contains(name) <==> exists|i: int|
            0 <= i < r.len() && r[i] == (name, true),
    decreases r.len(),
{
    if r.len() == 0 {
        assert(!attending(r).contains(name));
    } else {
        let front = r.drop_last();
        lemma_attending_membership(front, name);
        let rest = attending(front);
        if r.last().1 {
            assert(attending(r) == rest.push(r.last().0));
            if attending(r).contains(name) {
                let i = choose|i: int|
                    0 <= i < attending(r).len() && attending(r)[i] == name;
                if i < rest.len() {
                    assert(rest.contains(name));
                    let j = choose|j: int| 0 <= j < front.len() && front[j] == (name, true);
                    assert(r[j] == (name, true));
                } else {
                    assert(r.last().0 == name);
                    assert(r[r.len() - 1] == (name, true));
                }
            }
            if exists|i: int| 0 <= i < r.len() && r[i] == (name, true) {
                let i = choose|i: int| 0 <= i < r.len() && r[i] == (name, true);
                if i < front.len() {
                    assert(front[i] == (name, true));
                    assert(rest.contains(name));
                    let j = choose|j: int| 0 <= j < rest.len() && rest[j] == name;
                    assert(rest.push(r.last().0)[j] == name);
                } else {
                    assert(rest.push(r.last().0)[rest.len() as int] == name);
                }
            }
        } else {
            assert(attending(r) == rest);
            if exists|i: int| 0 <= i < r.len() && r[i] == (name, true) {
                let i = choose|i: int| 0 <= i < r.len() && r[i] == (name, true);
                assert(i != r.len() - 1);
                assert(front[i] == (name, true));
            }
            if exists|i: int| 0 <= i < front.len() && front[i] == (name, true) {
                let i = choose|i: int| 0 <= i < front.len() && front[i] == (name, true);
                assert(r[i] == (name, true));
            }
        }
    }
}

} // verus!
