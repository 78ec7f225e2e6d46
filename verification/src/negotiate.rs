//! The client's policy: pick the highest protocol version that everyone
//! involved accepts.
//!
//! The server describes itself and the client alone decides, so a server can
//! add or retire versions without knowing anything about who calls it.

use vstd::prelude::*;
use vstd::string::*;
use crate::error::{Error, SpecError};
use crate::handler::{find_capability, first_capability};
use crate::ranges::{push_range, range_text};
use crate::text::{decimal, push_decimal};
use crate::v1::{capabilities_view, Capability, RegisterResponse, SpecCapability, SpecRegisterResponse, VersionRange};

verus! {

/// What this client needs. The server never sees it: it describes itself,
/// and the client decides whether that is acceptable.
#[derive(Debug)]
pub struct ClientRequirements {
    pub protocol_min: u32,
    pub protocol_max: u32,
    pub required_capabilities: Vec<String>,
    /// Sent in the register call for diagnostics only.
    pub client_build: String,
}

pub struct SpecRequirements {
    pub protocol_min: u32,
    pub protocol_max: u32,
    pub required_capabilities: Seq<Seq<char>>,
    pub client_build: Seq<char>,
}

/// The mathematical values of a list of strings.
pub open spec fn strings_view(v: Seq<String>) -> Seq<Seq<char>> {
    v.map_values(|s: String| s@)
}

impl View for ClientRequirements {
    type V = SpecRequirements;

    open spec fn view(&self) -> SpecRequirements {
        SpecRequirements {
            protocol_min: self.protocol_min,
            protocol_max: self.protocol_max,
            required_capabilities: strings_view(self.required_capabilities@),
            client_build: self.client_build@,
        }
    }
}

/// The build this client reports.
pub open spec fn default_client_build() -> Seq<char> {
    "something-client/0.1.0"@
}

fn default_build() -> (r: String)
    ensures
        r@ == default_client_build(),
{
    "something-client/0.1.0".to_owned()
}

impl ClientRequirements {
    pub fn new(protocol_min: u32, protocol_max: u32, required_capabilities: Vec<String>) -> (r: Self)
        ensures
            r@ == (SpecRequirements {
                protocol_min,
                protocol_max,
                required_capabilities: strings_view(required_capabilities@),
                client_build: default_client_build(),
            }),
    {
        ClientRequirements { protocol_min, protocol_max, required_capabilities, client_build: default_build() }
    }
}

impl Default for ClientRequirements {
    /// Protocol `1..=1`, needing the ping capability.
    fn default() -> (r: Self)
        ensures
            r@ == (SpecRequirements {
                protocol_min: 1,
                protocol_max: 1,
                required_capabilities: seq!["ping"@],
                client_build: default_client_build(),
            }),
    {
        let mut required: Vec<String> = Vec::new();
        required.push("ping".to_owned());
        let r = ClientRequirements::new(1, 1, required);
        assert(r@.required_capabilities =~= seq!["ping"@]);
        r
    }
}

impl Clone for ClientRequirements {
    fn clone(&self) -> (r: Self)
        ensures
            r@ == self@,
    {
        ClientRequirements {
            protocol_min: self.protocol_min,
            protocol_max: self.protocol_max,
            required_capabilities: clone_strings(&self.required_capabilities),
            client_build: self.client_build.clone(),
        }
    }
}

fn clone_strings(v: &Vec<String>) -> (r: Vec<String>)
    ensures
        strings_view(r@) == strings_view(v@),
{
    let mut out: Vec<String> = Vec::new();
    let mut i: usize = 0;
    while i < v.len()
        invariant
            i <= v@.len(),
            strings_view(out@) == strings_view(v@.take(i as int)),
        decreases v@.len() - i,
    {
        let s = v[i].clone();
        let ghost before = out@;
        out.push(s);
        assert(v@.take(i + 1) =~= v@.take(i as int).push(v@[i as int]));
        assert(strings_view(out@) =~= strings_view(before).push(s@));
        assert(strings_view(v@.take(i + 1)) =~= strings_view(v@.take(i as int)).push(v@[i as int]@));
        i = i + 1;
    }
    assert(v@.take(i as int) =~= v@);
    out
}

/// The outcome of a handshake: cached by the client, and derived again
/// whenever the server says the cached version is no longer good.
#[derive(Debug, PartialEq, Eq)]
pub struct Negotiated {
    pub version: u32,
    pub server_build: String,
}

pub struct SpecNegotiated {
    pub version: u32,
    pub server_build: Seq<char>,
}

impl View for Negotiated {
    type V = SpecNegotiated;

    open spec fn view(&self) -> SpecNegotiated {
        SpecNegotiated { version: self.version, server_build: self.server_build@ }
    }
}

impl Clone for Negotiated {
    fn clone(&self) -> (r: Self)
        ensures
            r@ == self@,
    {
        Negotiated { version: self.version, server_build: self.server_build.clone() }
    }
}

/* The specification of negotiation */

pub open spec fn max_int(a: int, b: int) -> int {
    if a >= b { a } else { b }
}

pub open spec fn min_int(a: int, b: int) -> int {
    if a <= b { a } else { b }
}

/// Narrows `[low, high]` by the range of each required capability in turn,
/// or names the first that the server does not have.
pub open spec fn fold_capabilities(caps: Seq<SpecCapability>, names: Seq<Seq<char>>, low: int, high: int) -> Result<(int, int), Seq<char>>
    decreases names.len(),
{
    if names.len() == 0 {
        Ok((low, high))
    } else {
        match first_capability(caps, names[0]) {
            None => Err(names[0]),
            Some(c) => fold_capabilities(
                caps,
                names.drop_first(),
                max_int(low, c.min_version as int),
                min_int(high, c.max_version as int),
            ),
        }
    }
}

/// The parts, separated by `sep`.
pub open spec fn join(parts: Seq<Seq<char>>, sep: Seq<char>) -> Seq<char>
    decreases parts.len(),
{
    if parts.len() == 0 {
        Seq::empty()
    } else if parts.len() == 1 {
        parts[0]
    } else {
        join(parts.drop_last(), sep) + sep + parts.last()
    }
}

pub open spec fn capability_names(caps: Seq<SpecCapability>) -> Seq<Seq<char>> {
    caps.map_values(|c: SpecCapability| c.name)
}

/// `name min-max`.
pub open spec fn capability_range_part(c: SpecCapability) -> Seq<char> {
    c.name + " "@ + range_text(VersionRange { min: c.min_version, max: c.max_version })
}

/// The ranges of the advertised capabilities that the client requires, in
/// the server's order.
pub open spec fn capability_range_parts(caps: Seq<SpecCapability>, required: Seq<Seq<char>>) -> Seq<Seq<char>>
    decreases caps.len(),
{
    if caps.len() == 0 {
        Seq::empty()
    } else {
        capability_range_parts(caps.drop_last(), required) + if required.contains(caps.last().name) {
            seq![capability_range_part(caps.last())]
        } else {
            Seq::empty()
        }
    }
}

/// Shown only when required capabilities constrain the answer, so that the
/// common case stays readable.
pub open spec fn capability_ranges_text(reqs: SpecRequirements, reg: SpecRegisterResponse) -> Seq<char> {
    let parts = capability_range_parts(reg.capabilities, reqs.required_capabilities);
    if parts.len() == 0 {
        Seq::empty()
    } else {
        ", capabilities "@ + join(parts, ", "@)
    }
}

/// Names the capability, what the server has, and the actual ranges of
/// both sides, as every incompatibility does.
pub open spec fn missing_capability_message(
    reqs: SpecRequirements,
    reg: SpecRegisterResponse,
    inbound: VersionRange,
    outbound: VersionRange,
    name: Seq<char>,
) -> Seq<char> {
    "server "@ + reg.build + " does not provide required capability "@ + name + "; it has ["@ + join(
        capability_names(reg.capabilities),
        ", "@,
    ) + "]; client "@ + range_text(VersionRange { min: reqs.protocol_min, max: reqs.protocol_max })
        + ", server inbound "@ + range_text(inbound) + ", outbound "@ + range_text(outbound)
}

pub open spec fn no_common_version_message(
    reqs: SpecRequirements,
    reg: SpecRegisterResponse,
    inbound: VersionRange,
    outbound: VersionRange,
) -> Seq<char> {
    "no common protocol version: client "@ + range_text(VersionRange { min: reqs.protocol_min, max: reqs.protocol_max })
        + ", server inbound "@ + range_text(inbound) + ", outbound "@ + range_text(outbound) + capability_ranges_text(
        reqs,
        reg,
    )
}

/// Negotiation: the highest version in the intersection of the client's
/// range, the server's inbound and outbound ranges and the range of every
/// required capability.
pub open spec fn spec_negotiate(reqs: SpecRequirements, reg: SpecRegisterResponse) -> Result<SpecNegotiated, SpecError> {
    match reg.inbound {
        None => Err(SpecError::Protocol("register response has no inbound range"@)),
        Some(inbound) => match reg.outbound {
            None => Err(SpecError::Protocol("register response has no outbound range"@)),
            Some(outbound) => {
                let low = max_int(max_int(reqs.protocol_min as int, inbound.min as int), outbound.min as int);
                let high = min_int(min_int(reqs.protocol_max as int, inbound.max as int), outbound.max as int);
                match fold_capabilities(reg.capabilities, reqs.required_capabilities, low, high) {
                    Err(name) => Err(
                        SpecError::Incompatible(missing_capability_message(reqs, reg, inbound, outbound, name)),
                    ),
                    Ok((l, h)) => if l > h {
                        Err(SpecError::Incompatible(no_common_version_message(reqs, reg, inbound, outbound)))
                    } else {
                        Ok(SpecNegotiated { version: h as u32, server_build: reg.build })
                    },
                }
            },
        },
    }
}

/// The view of a negotiation's outcome.
pub open spec fn negotiated_result_view(r: Result<Negotiated, Error>) -> Result<SpecNegotiated, SpecError> {
    match r {
        Ok(n) => Ok(n@),
        Err(e) => Err(e@),
    }
}

/* What negotiation guarantees */

/// The server has a capability called `name`, and `v` lies in its range.
pub open spec fn capability_admits(caps: Seq<SpecCapability>, name: Seq<char>, v: int) -> bool {
    match first_capability(caps, name) {
        Some(c) => c.min_version <= v <= c.max_version,
        None => false,
    }
}

/// `v` lies in the range of every capability named in `names`, each of which
/// the server has.
pub open spec fn in_all_capabilities(caps: Seq<SpecCapability>, names: Seq<Seq<char>>, v: int) -> bool {
    forall|k: int| 0 <= k < names.len() ==> #[trigger] capability_admits(caps, names[k], v)
}

/// `v` is a version that the client, the server in both directions, and
/// every capability the client requires all accept.
pub open spec fn acceptable(reqs: SpecRequirements, reg: SpecRegisterResponse, v: int) -> bool {
    &&& reqs.protocol_min <= v <= reqs.protocol_max
    &&& reg.inbound matches Some(i) && i.min <= v <= i.max
    &&& reg.outbound matches Some(o) && o.min <= v <= o.max
    &&& in_all_capabilities(reg.capabilities, reqs.required_capabilities, v)
}

/// `in_all_capabilities` over `names` splits into the first name and the rest.
proof fn lemma_in_all_first(caps: Seq<SpecCapability>, names: Seq<Seq<char>>, v: int)
    requires
        names.len() > 0,
    ensures
        in_all_capabilities(caps, names, v) == (capability_admits(caps, names[0], v) && in_all_capabilities(
            caps,
            names.drop_first(),
            v,
        )),
{
    let rest = names.drop_first();
    if capability_admits(caps, names[0], v) && in_all_capabilities(caps, rest, v) {
        assert forall|k: int| 0 <= k < names.len() implies #[trigger] capability_admits(caps, names[k], v) by {
            if k > 0 {
                assert(rest[k - 1] == names[k]);
            }
        }
    }
    if in_all_capabilities(caps, names, v) {
        assert(capability_admits(caps, names[0], v));
        assert forall|k: int| 0 <= k < rest.len() implies #[trigger] capability_admits(caps, rest[k], v) by {
            assert(rest[k] == names[k + 1]);
            assert(capability_admits(caps, names[k + 1], v));
        }
    }
}

/// The fold fails exactly when some required name is missing.
proof fn lemma_fold_ok(caps: Seq<SpecCapability>, names: Seq<Seq<char>>, low: int, high: int)
    ensures
        fold_capabilities(caps, names, low, high) is Ok <==> forall|k: int|
            0 <= k < names.len() ==> #[trigger] first_capability(caps, names[k]) is Some,
    decreases names.len(),
{
    if names.len() > 0 {
        let rest = names.drop_first();
        match first_capability(caps, names[0]) {
            None => {},
            Some(c) => {
                let l1 = max_int(low, c.min_version as int);
                let h1 = min_int(high, c.max_version as int);
                lemma_fold_ok(caps, rest, l1, h1);
                if forall|k: int| 0 <= k < rest.len() ==> #[trigger] first_capability(caps, rest[k]) is Some {
                    assert forall|k: int| 0 <= k < names.len() implies #[trigger] first_capability(caps, names[k]) is Some by {
                        if k > 0 {
                            assert(rest[k - 1] == names[k]);
                        }
                    }
                }
                if forall|k: int| 0 <= k < names.len() ==> #[trigger] first_capability(caps, names[k]) is Some {
                    assert forall|k: int| 0 <= k < rest.len() implies #[trigger] first_capability(caps, rest[k]) is Some by {
                        assert(rest[k] == names[k + 1]);
                    }
                }
            },
        }
    }
}

/// Where the fold succeeds, its interval holds exactly the versions in
/// `[low, high]` that every named capability admits.
proof fn lemma_fold_interval(caps: Seq<SpecCapability>, names: Seq<Seq<char>>, low: int, high: int, l: int, h: int, v: int)
    requires
        fold_capabilities(caps, names, low, high) == Ok::<(int, int), Seq<char>>((l, h)),
    ensures
        (l <= v && v <= h) <==> (low <= v && v <= high && in_all_capabilities(caps, names, v)),
    decreases names.len(),
{
    if names.len() > 0 {
        let rest = names.drop_first();
        let c = first_capability(caps, names[0])->Some_0;
        let l1 = max_int(low, c.min_version as int);
        let h1 = min_int(high, c.max_version as int);
        lemma_fold_interval(caps, rest, l1, h1, l, h, v);
        lemma_in_all_first(caps, names, v);
    }
}

/// The negotiated version is acceptable to everyone, and no acceptable
/// version is higher.
pub proof fn lemma_negotiate_picks_highest(reqs: SpecRequirements, reg: SpecRegisterResponse)
    ensures
        spec_negotiate(reqs, reg) matches Ok(n) ==> {
            &&& acceptable(reqs, reg, n.version as int)
            &&& forall|v: int| acceptable(reqs, reg, v) ==> v <= n.version
            &&& n.server_build == reg.build
        },
{
    if let (Some(inbound), Some(outbound)) = (reg.inbound, reg.outbound) {
        let low = max_int(max_int(reqs.protocol_min as int, inbound.min as int), outbound.min as int);
        let high = min_int(min_int(reqs.protocol_max as int, inbound.max as int), outbound.max as int);
        if let Ok((l, h)) = fold_capabilities(reg.capabilities, reqs.required_capabilities, low, high) {
            if l <= h {
                lemma_fold_interval(reg.capabilities, reqs.required_capabilities, low, high, l, h, h);
                assert(acceptable(reqs, reg, h));
                assert forall|v: int| acceptable(reqs, reg, v) implies v <= h by {
                    lemma_fold_interval(reg.capabilities, reqs.required_capabilities, low, high, l, h, v);
                }
            }
        }
    }
}

/// Negotiation succeeds exactly when some version is acceptable to
/// everyone; it is a protocol error exactly when the server leaves out one
/// of its ranges, and an incompatibility otherwise.
pub proof fn lemma_negotiate_succeeds_iff_acceptable(reqs: SpecRequirements, reg: SpecRegisterResponse)
    ensures
        spec_negotiate(reqs, reg) is Ok <==> exists|v: int| acceptable(reqs, reg, v),
        spec_negotiate(reqs, reg) matches Err(SpecError::Protocol(_)) <==> (reg.inbound is None || reg.outbound is None),
        spec_negotiate(reqs, reg) matches Err(e) ==> (e is Protocol || e is Incompatible),
{
    lemma_negotiate_picks_highest(reqs, reg);
    if let (Some(inbound), Some(outbound)) = (reg.inbound, reg.outbound) {
        let low = max_int(max_int(reqs.protocol_min as int, inbound.min as int), outbound.min as int);
        let high = min_int(min_int(reqs.protocol_max as int, inbound.max as int), outbound.max as int);
        lemma_fold_ok(reg.capabilities, reqs.required_capabilities, low, high);
        if exists|v: int| acceptable(reqs, reg, v) {
            let v = choose|v: int| acceptable(reqs, reg, v);
            assert forall|k: int| 0 <= k < reqs.required_capabilities.len() implies #[trigger] first_capability(
                reg.capabilities,
                reqs.required_capabilities[k],
            ) is Some by {
                assert(capability_admits(reg.capabilities, reqs.required_capabilities[k], v));
            }
            if let Ok((l, h)) = fold_capabilities(reg.capabilities, reqs.required_capabilities, low, high) {
                lemma_fold_interval(reg.capabilities, reqs.required_capabilities, low, high, l, h, v);
                assert(l <= v <= h);
            }
        }
    }
}

/// Requiring one more capability never raises the negotiated version: if
/// negotiation succeeds with it, it succeeds without it, at a version at
/// least as high.
pub proof fn lemma_required_capability_only_lowers(reqs: SpecRequirements, reg: SpecRegisterResponse, name: Seq<char>)
    ensures
        spec_negotiate(
            SpecRequirements { required_capabilities: reqs.required_capabilities.push(name), ..reqs },
            reg,
        ) matches Ok(n2) ==> (spec_negotiate(reqs, reg) matches Ok(n1) && n2.version <= n1.version),
{
    let more = SpecRequirements { required_capabilities: reqs.required_capabilities.push(name), ..reqs };
    lemma_negotiate_picks_highest(more, reg);
    lemma_negotiate_picks_highest(reqs, reg);
    lemma_negotiate_succeeds_iff_acceptable(reqs, reg);
    if let Ok(n2) = spec_negotiate(more, reg) {
        let v = n2.version as int;
        assert(acceptable(more, reg, v));
        assert forall|k: int| 0 <= k < reqs.required_capabilities.len() implies #[trigger] capability_admits(
            reg.capabilities,
            reqs.required_capabilities[k],
            v,
        ) by {
            assert(more.required_capabilities[k] == reqs.required_capabilities[k]);
            assert(capability_admits(reg.capabilities, more.required_capabilities[k], v));
        }
        assert(acceptable(reqs, reg, v));
    }
}

/* Negotiation */

proof fn lemma_join_push(parts: Seq<Seq<char>>, sep: Seq<char>, x: Seq<char>)
    ensures
        join(parts.push(x), sep) == if parts.len() == 0 { x } else { join(parts, sep) + sep + x },
{
    assert(parts.push(x).drop_last() =~= parts);
    assert(parts.push(x).last() == x);
    if parts.len() == 0 {
        assert(parts.push(x)[0] == x);
    }
}

/// Appends the parts, separated by `sep`.
fn push_joined(out: &mut String, parts: &Vec<String>, sep: &str)
    ensures
        final(out)@ == old(out)@ + join(strings_view(parts@), sep@),
{
    let ghost start = out@;
    let mut i: usize = 0;
    while i < parts.len()
        invariant
            i <= parts@.len(),
            out@ == start + join(strings_view(parts@.take(i as int)), sep@),
        decreases parts@.len() - i,
    {
        proof {
            assert(strings_view(parts@.take(i + 1)) =~= strings_view(parts@.take(i as int)).push(parts@[i as int]@));
            lemma_join_push(strings_view(parts@.take(i as int)), sep@, parts@[i as int]@);
        }
        if i > 0 {
            out.append(sep);
        }
        out.append(parts[i].as_str());
        i = i + 1;
    }
    assert(parts@.take(i as int) =~= parts@);
    assert(final(out)@ =~= start + join(strings_view(parts@), sep@));
}

/// Appends the names of the capabilities, separated by commas.
fn push_capability_names(out: &mut String, caps: &Vec<Capability>)
    ensures
        final(out)@ == old(out)@ + join(capability_names(capabilities_view(caps@)), ", "@),
{
    let ghost start = out@;
    let mut i: usize = 0;
    while i < caps.len()
        invariant
            i <= caps@.len(),
            out@ == start + join(capability_names(capabilities_view(caps@.take(i as int))), ", "@),
        decreases caps@.len() - i,
    {
        proof {
            assert(capability_names(capabilities_view(caps@.take(i + 1)))
                =~= capability_names(capabilities_view(caps@.take(i as int))).push(caps@[i as int].name@));
            lemma_join_push(capability_names(capabilities_view(caps@.take(i as int))), ", "@, caps@[i as int].name@);
        }
        if i > 0 {
            out.append(", ");
        }
        out.append(caps[i].name.as_str());
        i = i + 1;
    }
    assert(caps@.take(i as int) =~= caps@);
    assert(final(out)@ =~= start + join(capability_names(capabilities_view(caps@)), ", "@));
}

/// Whether `name` is among `names`.
fn contains_name(names: &Vec<String>, name: &String) -> (r: bool)
    ensures
        r == strings_view(names@).contains(name@),
{
    let mut i: usize = 0;
    while i < names.len()
        invariant
            i <= names@.len(),
            forall|j: int| 0 <= j < i ==> names@[j]@ != name@,
        decreases names@.len() - i,
    {
        if names[i] == *name {
            assert(strings_view(names@)[i as int] == name@);
            return true;
        }
        i = i + 1;
    }
    assert(!strings_view(names@).contains(name@)) by {
        if strings_view(names@).contains(name@) {
            let j = choose|j: int| 0 <= j < strings_view(names@).len() && strings_view(names@)[j] == name@;
            assert(names@[j]@ == name@);
        }
    }
    false
}

/// Included in the failure message only when capabilities constrain the
/// answer.
fn capability_ranges(requirements: &ClientRequirements, register: &RegisterResponse) -> (r: String)
    ensures
        r@ == capability_ranges_text(requirements@, register@),
{
    let ghost cv = capabilities_view(register.capabilities@);
    let ghost required = requirements@.required_capabilities;
    let mut parts: Vec<String> = Vec::new();
    let mut i: usize = 0;
    while i < register.capabilities.len()
        invariant
            i <= register.capabilities@.len(),
            cv == capabilities_view(register.capabilities@),
            required == strings_view(requirements.required_capabilities@),
            strings_view(parts@) == capability_range_parts(cv.take(i as int), required),
        decreases register.capabilities@.len() - i,
    {
        let c = &register.capabilities[i];
        proof {
            assert(cv.take(i + 1).drop_last() =~= cv.take(i as int));
            assert(cv.take(i + 1).last() == c@);
        }
        if contains_name(&requirements.required_capabilities, &c.name) {
            let mut part = c.name.clone();
            part.append(" ");
            push_range(&mut part, &VersionRange { min: c.min_version, max: c.max_version });
            let ghost before = parts@;
            parts.push(part);
            assert(part@ =~= capability_range_part(c@));
            assert(strings_view(parts@) =~= strings_view(before).push(part@));
            assert(strings_view(parts@) =~= capability_range_parts(cv.take(i + 1), required));
        } else {
            assert(strings_view(parts@) =~= capability_range_parts(cv.take(i + 1), required));
        }
        i = i + 1;
    }
    assert(cv.take(i as int) =~= cv);
    if parts.len() == 0 {
        let r = String::new();
        assert(r@ =~= capability_ranges_text(requirements@, register@));
        r
    } else {
        let mut r = ", capabilities ".to_owned();
        push_joined(&mut r, &parts, ", ");
        assert(r@ =~= capability_ranges_text(requirements@, register@));
        r
    }
}

/// Picks the highest protocol version acceptable to everyone: the client,
/// the server in both directions, and every capability the client requires.
/// Adding a required capability can therefore only lower the result, never
/// let it succeed at a version where that capability does not exist.
pub fn negotiate(requirements: &ClientRequirements, register: &RegisterResponse) -> (r: Result<Negotiated, Error>)
    ensures
        negotiated_result_view(r) == spec_negotiate(requirements@, register@),
{
    let inbound = match register.inbound {
        Some(r) => r,
        None => return Err(Error::Protocol("register response has no inbound range".to_owned())),
    };
    let outbound = match register.outbound {
        Some(r) => r,
        None => return Err(Error::Protocol("register response has no outbound range".to_owned())),
    };
    let mut low = requirements.protocol_min;
    if inbound.min > low {
        low = inbound.min;
    }
    if outbound.min > low {
        low = outbound.min;
    }
    let mut high = requirements.protocol_max;
    if inbound.max < high {
        high = inbound.max;
    }
    if outbound.max < high {
        high = outbound.max;
    }
    let ghost caps = capabilities_view(register.capabilities@);
    let ghost names = strings_view(requirements.required_capabilities@);
    let ghost low0 = low as int;
    let ghost high0 = high as int;
    assert(names.skip(0) =~= names);
    let mut i: usize = 0;
    while i < requirements.required_capabilities.len()
        invariant
            i <= requirements.required_capabilities@.len(),
            register.inbound == Some(inbound),
            register.outbound == Some(outbound),
            low0 == max_int(max_int(requirements.protocol_min as int, inbound.min as int), outbound.min as int),
            high0 == min_int(min_int(requirements.protocol_max as int, inbound.max as int), outbound.max as int),
            caps == capabilities_view(register.capabilities@),
            names == strings_view(requirements.required_capabilities@),
            fold_capabilities(caps, names, low0, high0) == fold_capabilities(caps, names.skip(i as int), low as int, high as int),
        decreases requirements.required_capabilities@.len() - i,
    {
        let name = &requirements.required_capabilities[i];
        proof {
            assert(names.skip(i as int)[0] == name@);
            assert(names.skip(i as int).drop_first() =~= names.skip(i + 1));
        }
        match find_capability(&register.capabilities, name.as_str()) {
            None => {
                let mut message = "server ".to_owned();
                message.append(register.build.as_str());
                message.append(" does not provide required capability ");
                message.append(name.as_str());
                message.append("; it has [");
                push_capability_names(&mut message, &register.capabilities);
                message.append("]; client ");
                push_range(&mut message, &VersionRange { min: requirements.protocol_min, max: requirements.protocol_max });
                message.append(", server inbound ");
                push_range(&mut message, &inbound);
                message.append(", outbound ");
                push_range(&mut message, &outbound);
                assert(message@ =~= missing_capability_message(requirements@, register@, inbound, outbound, name@));
                return Err(Error::Incompatible(message));
            },
            Some(c) => {
                if c.min_version > low {
                    low = c.min_version;
                }
                if c.max_version < high {
                    high = c.max_version;
                }
            },
        }
        i = i + 1;
    }
    assert(names.skip(i as int) =~= Seq::<Seq<char>>::empty());
    if low > high {
        let mut message = "no common protocol version: client ".to_owned();
        push_range(&mut message, &VersionRange { min: requirements.protocol_min, max: requirements.protocol_max });
        message.append(", server inbound ");
        push_range(&mut message, &inbound);
        message.append(", outbound ");
        push_range(&mut message, &outbound);
        let ranges = capability_ranges(requirements, register);
        message.append(ranges.as_str());
        assert(message@ =~= no_common_version_message(requirements@, register@, inbound, outbound));
        return Err(Error::Incompatible(message));
    }
    Ok(Negotiated { version: high, server_build: register.build.clone() })
}

} // verus!
