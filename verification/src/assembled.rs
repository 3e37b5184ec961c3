//! An assembled schema: its import bindings, its routes, its types keyed
//! by name, and its features. Each route has a short header packing its
//! root slot and endpoint slot into the two low bytes of a `u64`; the
//! header finds the route again. Two versions of an assembled schema
//! give an upgrade plan.
use vstd::prelude::*;
use vstd::utf8::*;
use crate::declaration::{BodyModel, DeclarationBody, Engine, same_prefix, variants_same_prefix};
use crate::error::Error;
use crate::feature::Feature;
use crate::import::{ImportBinding, keys_sorted};
use crate::name::{Name, all_distinct, first_duplicate, first_duplicate_name, lemma_first_duplicate_none, name_texts};
use crate::upgrade::{AnnotationModel, Projection, ProjectionModel, StandardProjection, UpgradeAnnotation, UpgradePlan, annotation_models, annotation_name, projection_models};
use crate::text::{
    bytes_compare, compare_str, lemma_bytes_compare_antisymmetric, lemma_bytes_compare_transitive,
    lemma_bytes_compare_zero, str_equal,
};

verus! {

broadcast use vstd::utf8::group_utf8_lib;

#[derive(Clone, Copy, Debug, PartialEq, Eq, Hash, Structural)]
pub enum Leg {
    Ordinary,
    Owner,
    Sema,
}

#[derive(Clone, Debug, PartialEq, Eq)]
pub struct Endpoint {
    slot: usize,
    name: Name,
}

impl Endpoint {
    pub closed spec fn slot_of(&self) -> usize {
        self.slot
    }

    pub closed spec fn name_text(&self) -> Seq<char> {
        self.name.text()
    }

    pub fn new(slot: usize, name: Name) -> (r: Self)
        ensures
            r.slot_of() == slot,
            r.name_text() == name.text(),
    {
        Endpoint { slot, name }
    }

    pub fn slot(&self) -> (r: usize)
        ensures
            r == self.slot_of(),
    {
        self.slot
    }

    pub fn name(&self) -> (r: &Name)
        ensures
            r.text() == self.name_text(),
    {
        &self.name
    }
}

#[derive(Clone, Debug, PartialEq, Eq)]
pub enum RouteBody {
    Type(Name),
    Unit,
}

#[derive(Clone, Debug, PartialEq, Eq)]
pub struct Route {
    leg: Leg,
    root_slot: usize,
    root: Name,
    endpoint: Endpoint,
    body: RouteBody,
    engine: Option<Engine>,
}

// ── Short headers ───────────────────────────────────────────────────

/// The short header of a root slot and an endpoint slot, each below 256:
/// the little-endian `u64` whose byte 0 is the root slot and byte 1 the
/// endpoint slot.
pub open spec fn header_value(root_slot: nat, endpoint_slot: nat) -> nat {
    root_slot + 256 * endpoint_slot
}

/// Byte 0 of a header.
pub open spec fn header_root_slot(header: nat) -> nat {
    header % 256
}

/// Byte 1 of a header.
pub open spec fn header_endpoint_slot(header: nat) -> nat {
    (header / 256) % 256
}

/// A header gives back the two slots it was made of.
pub proof fn lemma_short_header_roundtrip(root_slot: nat, endpoint_slot: nat)
    requires
        root_slot < 256,
        endpoint_slot < 256,
    ensures
        header_root_slot(header_value(root_slot, endpoint_slot)) == root_slot,
        header_endpoint_slot(header_value(root_slot, endpoint_slot)) == endpoint_slot,
        header_value(root_slot, endpoint_slot) < 65536,
{
    let h = header_value(root_slot, endpoint_slot);
    assert(h % 256 == root_slot) by (nonlinear_arith)
        requires
            h == root_slot + 256 * endpoint_slot,
            root_slot < 256,
    ;
    assert(h / 256 == endpoint_slot) by (nonlinear_arith)
        requires
            h == root_slot + 256 * endpoint_slot,
            root_slot < 256,
    ;
}

impl Route {
    pub closed spec fn leg_of(&self) -> Leg {
        self.leg
    }

    pub closed spec fn root_slot_of(&self) -> usize {
        self.root_slot
    }

    pub closed spec fn root_text(&self) -> Seq<char> {
        self.root.text()
    }

    pub closed spec fn endpoint_of(&self) -> Endpoint {
        self.endpoint
    }

    pub closed spec fn body_of(&self) -> RouteBody {
        self.body
    }

    pub closed spec fn engine_of(&self) -> Option<Engine> {
        self.engine
    }

    pub fn new(leg: Leg, root_slot: usize, root: Name, endpoint: Endpoint, body: RouteBody) -> (r:
        Self)
        ensures
            r.leg_of() == leg,
            r.root_slot_of() == root_slot,
            r.root_text() == root.text(),
            r.endpoint_of() == endpoint,
            r.body_of() == body,
            r.engine_of() is None,
    {
        Self::with_engine(leg, root_slot, root, endpoint, body, None)
    }

    pub fn with_engine(
        leg: Leg,
        root_slot: usize,
        root: Name,
        endpoint: Endpoint,
        body: RouteBody,
        engine: Option<Engine>,
    ) -> (r: Self)
        ensures
            r.leg_of() == leg,
            r.root_slot_of() == root_slot,
            r.root_text() == root.text(),
            r.endpoint_of() == endpoint,
            r.body_of() == body,
            r.engine_of() == engine,
    {
        Route { leg, root_slot, root, endpoint, body, engine }
    }

    pub fn leg(&self) -> (r: Leg)
        ensures
            r == self.leg_of(),
    {
        self.leg
    }

    pub fn root_slot(&self) -> (r: usize)
        ensures
            r == self.root_slot_of(),
    {
        self.root_slot
    }

    pub fn root(&self) -> (r: &Name)
        ensures
            r.text() == self.root_text(),
    {
        &self.root
    }

    pub fn endpoint(&self) -> (r: &Endpoint)
        ensures
            *r == self.endpoint_of(),
    {
        &self.endpoint
    }

    pub fn body(&self) -> (r: &RouteBody)
        ensures
            *r == self.body_of(),
    {
        &self.body
    }

    pub fn engine(&self) -> (r: Option<Engine>)
        ensures
            r == self.engine_of(),
    {
        self.engine
    }

    /// The route's short header; refused when the root slot, or else the
    /// endpoint slot, does not fit in a byte.
    pub fn short_header(&self) -> (r: Result<u64, Error>)
        ensures
            self.root_slot_of() >= 256 ==> (r matches Err(
                Error::ShortHeaderSlotOverflow { root, endpoint, slot },
            ) && root.text() == self.root_text() && endpoint is None && slot
                == self.root_slot_of()),
            self.root_slot_of() < 256 && self.endpoint_of().slot_of() >= 256 ==> (r matches Err(
                Error::ShortHeaderSlotOverflow { root, endpoint, slot },
            ) && root.text() == self.root_text() && (endpoint matches Some(e) && e.text()
                == self.endpoint_of().name_text()) && slot == self.endpoint_of().slot_of()),
            self.root_slot_of() < 256 && self.endpoint_of().slot_of() < 256 ==> r == Ok::<
                u64,
                Error,
            >(
                header_value(
                    self.root_slot_of() as nat,
                    self.endpoint_of().slot_of() as nat,
                ) as u64,
            ),
    {
        if self.root_slot > 255 {
            return Err(
                Error::ShortHeaderSlotOverflow {
                    root: self.root.duplicate(),
                    endpoint: None,
                    slot: self.root_slot,
                },
            );
        }
        if self.endpoint.slot > 255 {
            return Err(
                Error::ShortHeaderSlotOverflow {
                    root: self.root.duplicate(),
                    endpoint: Some(self.endpoint.name.duplicate()),
                    slot: self.endpoint.slot,
                },
            );
        }
        let root = self.root_slot as u64;
        let endpoint = self.endpoint.slot as u64;
        Ok(root + 256 * endpoint)
    }
}

/// Whether a route answers to a leg and a pair of slots.
pub open spec fn route_answers(route: Route, leg: Leg, root_slot: nat, endpoint_slot: nat) -> bool {
    route.leg_of() == leg && route.root_slot_of() == root_slot && route.endpoint_of().slot_of()
        == endpoint_slot
}

/// The first route answering to a leg and a short header.
pub open spec fn route_for_header_spec(routes: Seq<Route>, leg: Leg, header: nat) -> Option<int>
    decreases routes.len(),
{
    if routes.len() == 0 {
        None
    } else {
        match route_for_header_spec(routes.drop_last(), leg, header) {
            Some(i) => Some(i),
            None => if route_answers(
                routes.last(),
                leg,
                header_root_slot(header),
                header_endpoint_slot(header),
            ) {
                Some(routes.len() - 1)
            } else {
                None
            },
        }
    }
}

proof fn lemma_route_for_header_prefix(routes: Seq<Route>, leg: Leg, header: nat, n: int)
    requires
        0 <= n <= routes.len(),
        route_for_header_spec(routes.take(n), leg, header) is Some,
    ensures
        route_for_header_spec(routes, leg, header) == route_for_header_spec(
            routes.take(n),
            leg,
            header,
        ),
    decreases routes.len() - n,
{
    if n < routes.len() {
        assert(routes.take(n + 1).drop_last() =~= routes.take(n));
        lemma_route_for_header_prefix(routes, leg, header, n + 1);
    } else {
        assert(routes.take(n) =~= routes);
    }
}

proof fn lemma_route_for_header_range(routes: Seq<Route>, leg: Leg, header: nat)
    ensures
        route_for_header_spec(routes, leg, header) matches Some(i) ==> 0 <= i < routes.len()
            && route_answers(routes[i], leg, header_root_slot(header), header_endpoint_slot(header))
            && forall|k: int| 0 <= k < i ==> !route_answers(
                #[trigger] routes[k],
                leg,
                header_root_slot(header),
                header_endpoint_slot(header),
            ),
        route_for_header_spec(routes, leg, header) is None ==> forall|k: int| 0 <= k < routes.len()
            ==> !route_answers(#[trigger] routes[k], leg, header_root_slot(header), header_endpoint_slot(header)),
    decreases routes.len(),
{
    if routes.len() > 0 {
        let prev = routes.drop_last();
        lemma_route_for_header_range(prev, leg, header);
        assert forall|k: int| 0 <= k < prev.len() implies #[trigger] routes[k] == prev[k] by {}
    }
}

/// Route lookup reads only the two low bytes of a short header: headers
/// that agree on bytes 0 and 1 find the same route, whatever bytes 2 to 7
/// hold.
pub proof fn lemma_route_lookup_reads_low_bytes(routes: Seq<Route>, leg: Leg, h1: u64, h2: u64)
    requires
        h1 % 65536 == h2 % 65536,
    ensures
        route_for_header_spec(routes, leg, h1 as nat) == route_for_header_spec(routes, leg, h2 as nat),
    decreases routes.len(),
{
    assert(h1 % 256 == h2 % 256 && (h1 / 256) % 256 == (h2 / 256) % 256) by (bit_vector)
        requires
            h1 % 65536 == h2 % 65536,
    ;
    assert(header_root_slot(h1 as nat) == header_root_slot(h2 as nat));
    assert(header_endpoint_slot(h1 as nat) == header_endpoint_slot(h2 as nat));
    if routes.len() > 0 {
        lemma_route_lookup_reads_low_bytes(routes.drop_last(), leg, h1, h2);
    }
}

/// A route whose short header is `h` is found again by `h`: the lookup
/// answers with the first route of that leg and those slots, which is the
/// route itself or one before it (the route itself when no earlier route
/// shares its leg and slots).
pub proof fn lemma_route_found_by_own_header(routes: Seq<Route>, i: int)
    requires
        0 <= i < routes.len(),
        routes[i].root_slot_of() < 256,
        routes[i].endpoint_of().slot_of() < 256,
    ensures
        ({
            let r = routes[i];
            let h = header_value(r.root_slot_of() as nat, r.endpoint_of().slot_of() as nat);
            route_for_header_spec(routes, r.leg_of(), h) matches Some(j) && j <= i
                && route_answers(
                routes[j],
                r.leg_of(),
                r.root_slot_of() as nat,
                r.endpoint_of().slot_of() as nat,
            )
                && forall|k: int| 0 <= k < j ==> !route_answers(
                #[trigger] routes[k],
                r.leg_of(),
                r.root_slot_of() as nat,
                r.endpoint_of().slot_of() as nat,
            )
        }),
{
    let r = routes[i];
    let a = r.root_slot_of() as nat;
    let b = r.endpoint_of().slot_of() as nat;
    let h = header_value(a, b);
    lemma_short_header_roundtrip(a, b);
    let prefix = routes.take(i + 1);
    assert(prefix.drop_last() =~= routes.take(i));
    assert(prefix.last() == r);
    assert(route_for_header_spec(prefix, r.leg_of(), h) is Some);
    lemma_route_for_header_prefix(routes, r.leg_of(), h, i + 1);
    lemma_route_for_header_range(prefix, r.leg_of(), h);
    lemma_route_for_header_range(routes, r.leg_of(), h);
}

// ── Types keyed by name ─────────────────────────────────────────────

#[derive(Debug, PartialEq, Eq)]
pub enum AssembledType {
    Local { name: Name, body: DeclarationBody },
    Imported { name: Name, binding: Name },
}

pub enum TypeModel {
    Local(Seq<char>, BodyModel),
    Imported(Seq<char>, Seq<char>),
}

pub open spec fn type_model_name(t: TypeModel) -> Seq<char> {
    match t {
        TypeModel::Local(n, _) => n,
        TypeModel::Imported(n, _) => n,
    }
}

impl AssembledType {
    pub open spec fn model(&self) -> TypeModel {
        match self {
            AssembledType::Local { name, body } => TypeModel::Local(name.text(), body.model()),
            AssembledType::Imported { name, binding } => TypeModel::Imported(
                name.text(),
                binding.text(),
            ),
        }
    }

    pub fn local(name: Name, body: DeclarationBody) -> (r: Self)
        ensures
            r.model() == TypeModel::Local(name.text(), body.model()),
    {
        AssembledType::Local { name, body }
    }

    pub fn imported(name: Name, binding: Name) -> (r: Self)
        ensures
            r.model() == TypeModel::Imported(name.text(), binding.text()),
    {
        AssembledType::Imported { name, binding }
    }

    pub fn name(&self) -> (r: &Name)
        ensures
            r.text() == type_model_name(self.model()),
    {
        match self {
            AssembledType::Local { name, .. } => name,
            AssembledType::Imported { name, .. } => name,
        }
    }

    pub fn duplicate(&self) -> (r: Self)
        ensures
            r.model() == self.model(),
    {
        match self {
            AssembledType::Local { name, body } => AssembledType::Local {
                name: name.duplicate(),
                body: body.duplicate(),
            },
            AssembledType::Imported { name, binding } => AssembledType::Imported {
                name: name.duplicate(),
                binding: binding.duplicate(),
            },
        }
    }
}

impl Clone for AssembledType {
    fn clone(&self) -> (r: Self)
        ensures
            r.model() == self.model(),
    {
        self.duplicate()
    }
}

pub open spec fn type_models(ts: Seq<AssembledType>) -> Seq<TypeModel> {
    Seq::new(ts.len(), |i: int| ts[i].model())
}

pub open spec fn type_names(ts: Seq<TypeModel>) -> Seq<Seq<char>> {
    Seq::new(ts.len(), |i: int| type_model_name(ts[i]))
}

/// The last type of a run named `k`: the one a map built by inserting the
/// run in order keeps.
pub open spec fn last_named(ts: Seq<TypeModel>, k: Seq<char>) -> Option<TypeModel>
    decreases ts.len(),
{
    if ts.len() == 0 {
        None
    } else if type_model_name(ts.last()) == k {
        Some(ts.last())
    } else {
        last_named(ts.drop_last(), k)
    }
}

/// The type named `k` in a run with unique names.
pub open spec fn type_named(ts: Seq<TypeModel>, k: Seq<char>) -> Option<TypeModel> {
    last_named(ts, k)
}

proof fn lemma_last_named_found(ts: Seq<TypeModel>, k: Seq<char>, i: int)
    requires
        0 <= i < ts.len(),
        type_model_name(ts[i]) == k,
        forall|j: int| i < j < ts.len() ==> type_model_name(#[trigger] ts[j]) != k,
    ensures
        last_named(ts, k) == Some(ts[i]),
    decreases ts.len(),
{
    if i < ts.len() - 1 {
        assert(type_model_name(ts[ts.len() - 1]) != k);
        lemma_last_named_found(ts.drop_last(), k, i);
    }
}

proof fn lemma_last_named_absent(ts: Seq<TypeModel>, k: Seq<char>)
    requires
        forall|j: int| 0 <= j < ts.len() ==> type_model_name(#[trigger] ts[j]) != k,
    ensures
        last_named(ts, k) is None,
    decreases ts.len(),
{
    if ts.len() > 0 {
        assert(type_model_name(ts[ts.len() - 1]) != k);
        lemma_last_named_absent(ts.drop_last(), k);
    }
}

proof fn lemma_last_named_result(ts: Seq<TypeModel>, k: Seq<char>)
    ensures
        match last_named(ts, k) {
            Some(t) => exists|i: int| 0 <= i < ts.len() && ts[i] == t && type_model_name(t) == k,
            None => forall|j: int| 0 <= j < ts.len() ==> type_model_name(#[trigger] ts[j]) != k,
        },
    decreases ts.len(),
{
    if ts.len() > 0 {
        lemma_last_named_result(ts.drop_last(), k);
        if type_model_name(ts.last()) == k {
            assert(ts[ts.len() - 1] == ts.last());
        } else {
            match last_named(ts.drop_last(), k) {
                Some(t) => {
                    let i = choose|i: int| 0 <= i < ts.len() - 1 && ts.drop_last()[i] == t && type_model_name(t) == k;
                    assert(ts[i] == t);
                },
                None => {
                    assert forall|j: int| 0 <= j < ts.len() implies type_model_name(#[trigger] ts[j]) != k by {
                        if j < ts.len() - 1 {
                            assert(ts.drop_last()[j] == ts[j]);
                        }
                    }
                },
            }
        }
    }
}

/// In a run with strictly sorted names, the type named `k` is the one at
/// the position holding `k`.
proof fn lemma_sorted_lookup(ts: Seq<TypeModel>, k: Seq<char>, i: int)
    requires
        keys_sorted(type_names(ts)),
        0 <= i < ts.len(),
        type_model_name(ts[i]) == k,
    ensures
        type_named(ts, k) == Some(ts[i]),
{
    let names = type_names(ts);
    assert forall|j: int| i < j < ts.len() implies type_model_name(#[trigger] ts[j]) != k by {
        assert(names[i] == k && names[j] == type_model_name(ts[j]));
        assert(bytes_compare(encode_utf8(names[i]), encode_utf8(names[j])) < 0);
        lemma_bytes_compare_zero(encode_utf8(names[i]), encode_utf8(names[j]));
    }
    lemma_last_named_found(ts, k, i);
}

#[derive(Debug, PartialEq, Eq)]
pub struct AssembledSchema {
    imports: Vec<ImportBinding>,
    routes: Vec<Route>,
    types: Vec<AssembledType>,
    features: Vec<Feature>,
}

impl AssembledSchema {
    pub closed spec fn import_list(&self) -> Seq<ImportBinding> {
        self.imports@
    }

    pub closed spec fn route_list(&self) -> Seq<Route> {
        self.routes@
    }

    pub closed spec fn type_list(&self) -> Seq<TypeModel> {
        type_models(self.types@)
    }

    pub closed spec fn feature_list(&self) -> Seq<Feature> {
        self.features@
    }

    /// The types are kept with strictly increasing names.
    pub open spec fn wf(&self) -> bool {
        keys_sorted(type_names(self.type_list()))
    }

    /// An assembled schema. The types are keyed by name: of several types
    /// with one name the last is kept, and they come out in name order.
    pub fn new(
        imports: Vec<ImportBinding>,
        routes: Vec<Route>,
        types: Vec<AssembledType>,
        features: Vec<Feature>,
    ) -> (r: Self)
        ensures
            r.wf(),
            r.import_list() == imports@,
            r.route_list() == routes@,
            r.feature_list() == features@,
            forall|k: Seq<char>|
                #[trigger] type_named(r.type_list(), k) == last_named(type_models(types@), k),
    {
        let mut kept: Vec<AssembledType> = Vec::new();
        let ghost input = type_models(types@);
        let mut i: usize = 0;
        assert(type_names(type_models(kept@)) =~= Seq::<Seq<char>>::empty());
        while i < types.len()
            invariant
                0 <= i <= types@.len(),
                input == type_models(types@),
                keys_sorted(type_names(type_models(kept@))),
                forall|k: Seq<char>|
                    #[trigger] type_named(type_models(kept@), k) == last_named(
                        input.take(i as int),
                        k,
                    ),
            decreases types@.len() - i,
        {
            let item = types[i].duplicate();
            proof {
                assert(item.model() == input[i as int]);
            }
            insert_type(&mut kept, item);
            proof {
                let prefix = input.take(i as int + 1);
                assert(prefix.drop_last() =~= input.take(i as int));
                assert(prefix.last() == input[i as int]);
            }
            i = i + 1;
        }
        proof {
            assert(input.take(types@.len() as int) =~= input);
        }
        AssembledSchema { imports, routes, types: kept, features }
    }

    pub fn imports(&self) -> (r: &[ImportBinding])
        ensures
            r@ == self.import_list(),
    {
        self.imports.as_slice()
    }

    pub fn routes(&self) -> (r: &[Route])
        ensures
            r@ == self.route_list(),
    {
        self.routes.as_slice()
    }

    /// The first route of the leg whose slots are the header's bytes 0
    /// and 1.
    pub fn route_for_short_header(&self, leg: Leg, short_header: u64) -> (r: Option<&Route>)
        ensures
            match route_for_header_spec(self.route_list(), leg, short_header as nat) {
                Some(i) => r == Some(&self.route_list()[i]),
                None => r is None,
            },
    {
        let root_slot = (short_header % 256) as usize;
        let endpoint_slot = ((short_header / 256) % 256) as usize;
        let ghost routes = self.routes@;
        let mut i: usize = 0;
        while i < self.routes.len()
            invariant
                routes == self.routes@,
                0 <= i <= routes.len(),
                root_slot == header_root_slot(short_header as nat),
                endpoint_slot == header_endpoint_slot(short_header as nat),
                route_for_header_spec(routes.take(i as int), leg, short_header as nat) is None,
            decreases routes.len() - i,
        {
            let route = &self.routes[i];
            let prefix = Ghost(routes.take(i as int + 1));
            assert(prefix@.drop_last() =~= routes.take(i as int));
            assert(prefix@.last() == routes[i as int]);
            if route.leg == leg && route.root_slot == root_slot && route.endpoint.slot
                == endpoint_slot {
                proof {
                    lemma_route_for_header_prefix(routes, leg, short_header as nat, i as int + 1);
                }
                return Some(route);
            }
            i = i + 1;
        }
        proof {
            assert(routes.take(i as int) =~= routes);
        }
        None
    }

    /// The types in name order.
    pub fn types(&self) -> (r: &[AssembledType])
        ensures
            type_models(r@) == self.type_list(),
    {
        self.types.as_slice()
    }

    pub fn features(&self) -> (r: &[Feature])
        ensures
            r@ == self.feature_list(),
    {
        self.features.as_slice()
    }

    /// The body of the local type named `name`.
    pub fn body(&self, name: &Name) -> (r: Option<&DeclarationBody>)
        requires
            self.wf(),
        ensures
            match type_named(self.type_list(), name.text()) {
                Some(TypeModel::Local(_, b)) => r matches Some(body) && body.model() == b,
                _ => r is None,
            },
    {
        let ghost ts = self.type_list();
        let mut i: usize = 0;
        while i < self.types.len()
            invariant
                ts == self.type_list(),
                self.wf(),
                0 <= i <= ts.len(),
                forall|j: int| 0 <= j < i ==> type_model_name(#[trigger] ts[j]) != name.text(),
            decreases ts.len() - i,
        {
            let candidate = &self.types[i];
            let same = str_equal(candidate.name().as_str(), name.as_str());
            assert(ts[i as int] == candidate.model());
            if same {
                proof {
                    lemma_sorted_lookup(ts, name.text(), i as int);
                }
                return match candidate {
                    AssembledType::Local { body, .. } => Some(body),
                    AssembledType::Imported { .. } => None,
                };
            }
            i = i + 1;
        }
        proof {
            lemma_last_named_absent(ts, name.text());
        }
        None
    }
}

/// Where a name goes in a run sorted by name, and whether it is there.
fn locate_type(kept: &Vec<AssembledType>, name: &Name) -> (r: (usize, bool))
    requires
        keys_sorted(type_names(type_models(kept@))),
    ensures
        ({
            let names = type_names(type_models(kept@));
            let (at, found) = r;
            &&& at <= names.len()
            &&& forall|t: int|
                0 <= t < at ==> bytes_compare(
                    encode_utf8(#[trigger] names[t]),
                    encode_utf8(name.text()),
                ) < 0
            &&& found ==> at < names.len() && names[at as int] == name.text()
            &&& forall|t: int|
                (if found {
                    at < t
                } else {
                    at <= t
                }) && t < names.len() ==> bytes_compare(
                    encode_utf8(name.text()),
                    encode_utf8(#[trigger] names[t]),
                ) < 0
        }),
{
    let ghost names = type_names(type_models(kept@));
    let ghost key = name.text();
    let mut at: usize = 0;
    while at < kept.len()
        invariant
            names == type_names(type_models(kept@)),
            keys_sorted(names),
            key == name.text(),
            0 <= at <= kept@.len(),
            forall|t: int|
                0 <= t < at ==> bytes_compare(encode_utf8(#[trigger] names[t]), encode_utf8(key))
                    < 0,
        decreases kept@.len() - at,
    {
        let c = compare_str(name.as_str(), kept[at].name().as_str());
        proof {
            assert(names[at as int] == type_model_name(kept@[at as int].model()));
            lemma_bytes_compare_antisymmetric(encode_utf8(key), encode_utf8(names[at as int]));
            lemma_bytes_compare_zero(encode_utf8(key), encode_utf8(names[at as int]));
            encode_utf8_decode_utf8(key);
            encode_utf8_decode_utf8(names[at as int]);
        }
        if c <= 0 {
            proof {
                assert forall|t: int| at < t < names.len() implies bytes_compare(
                    encode_utf8(key),
                    encode_utf8(#[trigger] names[t]),
                ) < 0 by {
                    assert(bytes_compare(encode_utf8(names[at as int]), encode_utf8(names[t])) < 0);
                    if c < 0 {
                        lemma_bytes_compare_transitive(
                            encode_utf8(key),
                            encode_utf8(names[at as int]),
                            encode_utf8(names[t]),
                        );
                    } else {
                        assert(names[at as int] == key);
                    }
                }
            }
            return (at, c == 0);
        }
        at = at + 1;
    }
    (at, false)
}

/// Insert a type into a run sorted by name, replacing one of the same name.
fn insert_type(kept: &mut Vec<AssembledType>, item: AssembledType)
    requires
        keys_sorted(type_names(type_models(old(kept)@))),
    ensures
        keys_sorted(type_names(type_models(final(kept)@))),
        forall|k: Seq<char>|
            #[trigger] type_named(type_models(final(kept)@), k) == if k == type_model_name(
                item.model(),
            ) {
                Some(item.model())
            } else {
                type_named(type_models(old(kept)@), k)
            },
{
    let ghost ts = type_models(kept@);
    let ghost names = type_names(ts);
    let ghost key = type_model_name(item.model());
    let ghost m = item.model();
    let (at, found) = locate_type(kept, item.name());
    if found {
        kept.remove(at);
    }
    kept.insert(at, item);
    proof {
        let ts2 = type_models(kept@);
        let names2 = type_names(ts2);
        if found {
            assert(ts2 =~= ts.update(at as int, m));
            assert(names2 =~= names.update(at as int, key));
        } else {
            assert(ts2 =~= ts.insert(at as int, m));
            assert(names2 =~= names.insert(at as int, key));
        }
        // Sortedness.
        assert forall|i: int, j: int| 0 <= i < j < names2.len() implies bytes_compare(
            encode_utf8(#[trigger] names2[i]),
            encode_utf8(#[trigger] names2[j]),
        ) < 0 by {
            if found {
                if i == at {
                    assert(names2[j] == names[j]);
                } else if j == at {
                    assert(names2[i] == names[i]);
                } else {
                    assert(names2[i] == names[i] && names2[j] == names[j]);
                }
            } else {
                if j < at {
                    assert(names2[i] == names[i] && names2[j] == names[j]);
                } else if j == at {
                    assert(names2[i] == names[i]);
                } else if i < at {
                    assert(names2[i] == names[i] && names2[j] == names[j - 1]);
                    lemma_bytes_compare_transitive(
                        encode_utf8(names[i]),
                        encode_utf8(key),
                        encode_utf8(names[j - 1]),
                    );
                } else if i == at {
                    assert(names2[j] == names[j - 1]);
                } else {
                    assert(names2[i] == names[i - 1] && names2[j] == names[j - 1]);
                }
            }
        }
        // Lookups.
        assert forall|k: Seq<char>| #[trigger] type_named(ts2, k) == if k == key {
            Some(m)
        } else {
            type_named(ts, k)
        } by {
            assert(names2[at as int] == key);
            assert(ts2[at as int] == m);
            if k == key {
                lemma_sorted_lookup(ts2, k, at as int);
            } else {
                lemma_last_named_result(ts, k);
                match last_named(ts, k) {
                    Some(t) => {
                        let i = choose|i: int| 0 <= i < ts.len() && ts[i] == t && type_model_name(t) == k;
                        lemma_sorted_lookup(ts, k, i);
                        if found {
                            assert(i != at);
                            assert(ts2[i] == ts[i]);
                            lemma_sorted_lookup(ts2, k, i);
                        } else if i < at {
                            assert(ts2[i] == ts[i]);
                            lemma_sorted_lookup(ts2, k, i);
                        } else {
                            assert(ts2[i + 1] == ts[i]);
                            lemma_sorted_lookup(ts2, k, i + 1);
                        }
                    },
                    None => {
                        assert forall|j: int| 0 <= j < ts2.len() implies type_model_name(#[trigger] ts2[j]) != k by {
                            if j != at {
                                if found || j < at {
                                    assert(ts2[j] == ts[j]);
                                } else {
                                    assert(ts2[j] == ts[j - 1]);
                                }
                            }
                        }
                        lemma_last_named_absent(ts2, k);
                    },
                }
            }
        }
    }
}

// ── Upgrade planning ────────────────────────────────────────────────

/// The upgrade annotations of the features, in order.
pub open spec fn feature_annotations(fs: Seq<Feature>) -> Seq<AnnotationModel>
    decreases fs.len(),
{
    if fs.len() == 0 {
        Seq::empty()
    } else {
        feature_annotations(fs.drop_last()) + match fs.last() {
            Feature::Upgrade(u) => u.annotation_list(),
            _ => Seq::empty(),
        }
    }
}

pub open spec fn annotation_names(anns: Seq<AnnotationModel>) -> Seq<Seq<char>> {
    Seq::new(anns.len(), |i: int| annotation_name(anns[i]))
}

/// The annotation about the type `k`.
pub open spec fn annotation_for(anns: Seq<AnnotationModel>, k: Seq<char>) -> Option<AnnotationModel>
    decreases anns.len(),
{
    if anns.len() == 0 {
        None
    } else if annotation_name(anns.last()) == k {
        Some(anns.last())
    } else {
        annotation_for(anns.drop_last(), k)
    }
}

/// The local types of a run, with their bodies, in order.
pub open spec fn local_types(ts: Seq<TypeModel>) -> Seq<(Seq<char>, BodyModel)>
    decreases ts.len(),
{
    if ts.len() == 0 {
        Seq::empty()
    } else {
        let prev = local_types(ts.drop_last());
        match ts.last() {
            TypeModel::Local(n, b) => prev.push((n, b)),
            TypeModel::Imported(_, _) => prev,
        }
    }
}

/// The body of the local type named `k`.
pub open spec fn local_body(ts: Seq<TypeModel>, k: Seq<char>) -> Option<BodyModel> {
    match type_named(ts, k) {
        Some(TypeModel::Local(_, b)) => Some(b),
        _ => None,
    }
}

/// An enum that only gained variants at its end.
pub open spec fn additive_enum_spec(previous: BodyModel, current: BodyModel) -> bool {
    match (previous, current) {
        (BodyModel::Enum(pv), BodyModel::Enum(cv)) => cv.len() > pv.len() && same_prefix(
            cv,
            pv,
            pv.len() as int,
        ),
        _ => false,
    }
}

/// Why an upgrade cannot be planned.
pub enum PlanError {
    DuplicateAnnotation(Seq<char>),
    MissingAnnotation(Seq<char>),
    RemovedNeedsAnnotation(Seq<char>),
}

pub open spec fn reports_plan_error(err: Error, e: PlanError) -> bool {
    match e {
        PlanError::DuplicateAnnotation(n) => err matches Error::DuplicateUpgradeAnnotation { name }
            && name.text() == n,
        PlanError::MissingAnnotation(n) => err matches Error::MissingUpgradeAnnotation { name }
            && name.text() == n,
        PlanError::RemovedNeedsAnnotation(n) => err matches Error::RemovedTypeRequiresAnnotation {
            name,
        } && name.text() == n,
    }
}

/// The projection of a current local type: the same body is an identity,
/// an enum that only gained variants a standard projection, another
/// change needs an annotation; a type the previous version lacks is a
/// rename when annotated as one of an existing previous type, else added.
pub open spec fn current_projection(
    n: Seq<char>,
    b: BodyModel,
    previous: Seq<TypeModel>,
    anns: Seq<AnnotationModel>,
) -> Result<ProjectionModel, PlanError> {
    match local_body(previous, n) {
        Some(pb) => if b == pb {
            Ok(ProjectionModel::Identity(n))
        } else if additive_enum_spec(pb, b) {
            Ok(ProjectionModel::Standard(n, StandardProjection::AdditiveEnumVariant))
        } else {
            match annotation_for(anns, n) {
                Some(a) => Ok(ProjectionModel::Annotated(n, a)),
                None => Err(PlanError::MissingAnnotation(n)),
            }
        },
        None => match annotation_for(anns, n) {
            Some(AnnotationModel::RenamedFrom(_, pn)) => if local_body(previous, pn) is Some {
                Ok(ProjectionModel::Renamed(n, pn))
            } else {
                Ok(ProjectionModel::Added(n))
            },
            _ => Ok(ProjectionModel::Added(n)),
        },
    }
}

pub open spec fn current_pass(
    entries: Seq<(Seq<char>, BodyModel)>,
    previous: Seq<TypeModel>,
    anns: Seq<AnnotationModel>,
) -> Result<Seq<ProjectionModel>, PlanError>
    decreases entries.len(),
{
    if entries.len() == 0 {
        Ok(Seq::empty())
    } else {
        match current_pass(entries.drop_last(), previous, anns) {
            Err(e) => Err(e),
            Ok(ps) => match current_projection(entries.last().0, entries.last().1, previous, anns) {
                Err(e) => Err(e),
                Ok(p) => Ok(ps.push(p)),
            },
        }
    }
}

/// The previous names of the renames among projections.
pub open spec fn renamed_names(ps: Seq<ProjectionModel>) -> Seq<Seq<char>>
    decreases ps.len(),
{
    if ps.len() == 0 {
        Seq::empty()
    } else {
        let prev = renamed_names(ps.drop_last());
        match ps.last() {
            ProjectionModel::Renamed(_, pn) => prev.push(pn),
            _ => prev,
        }
    }
}

/// The projection of a previous local type the current version no longer
/// has (and did not rename): it must be annotated as dropped or
/// untranslatable.
pub open spec fn previous_projection(
    n: Seq<char>,
    current: Seq<TypeModel>,
    renamed: Seq<Seq<char>>,
    anns: Seq<AnnotationModel>,
) -> Result<Option<ProjectionModel>, PlanError> {
    if local_body(current, n) is Some || renamed.contains(n) {
        Ok(None)
    } else {
        match annotation_for(anns, n) {
            Some(AnnotationModel::Drop(_)) => Ok(Some(ProjectionModel::Dropped(n))),
            Some(AnnotationModel::Untranslatable(_)) => Ok(Some(ProjectionModel::Untranslatable(n))),
            _ => Err(PlanError::RemovedNeedsAnnotation(n)),
        }
    }
}

pub open spec fn previous_pass(
    entries: Seq<(Seq<char>, BodyModel)>,
    current: Seq<TypeModel>,
    renamed: Seq<Seq<char>>,
    anns: Seq<AnnotationModel>,
) -> Result<Seq<ProjectionModel>, PlanError>
    decreases entries.len(),
{
    if entries.len() == 0 {
        Ok(Seq::empty())
    } else {
        match previous_pass(entries.drop_last(), current, renamed, anns) {
            Err(e) => Err(e),
            Ok(ps) => match previous_projection(entries.last().0, current, renamed, anns) {
                Err(e) => Err(e),
                Ok(Some(p)) => Ok(ps.push(p)),
                Ok(None) => Ok(ps),
            },
        }
    }
}

/// The upgrade plan from `previous` to `current`: the annotations must
/// name each type at most once; then every current local type, in name
/// order, and every removed previous local type, in name order.
pub open spec fn plan_spec(
    current: Seq<TypeModel>,
    features: Seq<Feature>,
    previous: Seq<TypeModel>,
) -> Result<Seq<ProjectionModel>, PlanError> {
    let anns = feature_annotations(features);
    match first_duplicate(annotation_names(anns)) {
        Some(j) => Err(PlanError::DuplicateAnnotation(annotation_names(anns)[j])),
        None => match current_pass(local_types(current), previous, anns) {
            Err(e) => Err(e),
            Ok(ps) => match previous_pass(local_types(previous), current, renamed_names(ps), anns) {
                Err(e) => Err(e),
                Ok(qs) => Ok(ps + qs),
            },
        },
    }
}

proof fn lemma_local_types_prefix(ts: Seq<TypeModel>, n: int)
    requires
        0 <= n <= ts.len(),
    ensures
        local_types(ts.take(n)).len() <= local_types(ts).len(),
        local_types(ts).take(local_types(ts.take(n)).len() as int) == local_types(ts.take(n)),
    decreases ts.len() - n,
{
    if n < ts.len() {
        lemma_local_types_prefix(ts, n + 1);
        let a = ts.take(n + 1);
        assert(a.drop_last() =~= ts.take(n));
        let la = local_types(a);
        let lb = local_types(ts.take(n));
        assert(la.take(lb.len() as int) =~= lb);
        assert(local_types(ts).take(lb.len() as int) =~= local_types(ts).take(la.len() as int).take(
            lb.len() as int,
        ));
    } else {
        assert(ts.take(n) =~= ts);
        assert(local_types(ts).take(local_types(ts).len() as int) =~= local_types(ts));
    }
}

proof fn lemma_current_pass_err_prefix(
    entries: Seq<(Seq<char>, BodyModel)>,
    m: int,
    previous: Seq<TypeModel>,
    anns: Seq<AnnotationModel>,
)
    requires
        0 <= m <= entries.len(),
        current_pass(entries.take(m), previous, anns) is Err,
    ensures
        current_pass(entries, previous, anns) == current_pass(entries.take(m), previous, anns),
    decreases entries.len() - m,
{
    if m < entries.len() {
        assert(entries.take(m + 1).drop_last() =~= entries.take(m));
        lemma_current_pass_err_prefix(entries, m + 1, previous, anns);
    } else {
        assert(entries.take(m) =~= entries);
    }
}

proof fn lemma_previous_pass_err_prefix(
    entries: Seq<(Seq<char>, BodyModel)>,
    m: int,
    current: Seq<TypeModel>,
    renamed: Seq<Seq<char>>,
    anns: Seq<AnnotationModel>,
)
    requires
        0 <= m <= entries.len(),
        previous_pass(entries.take(m), current, renamed, anns) is Err,
    ensures
        previous_pass(entries, current, renamed, anns) == previous_pass(
            entries.take(m),
            current,
            renamed,
            anns,
        ),
    decreases entries.len() - m,
{
    if m < entries.len() {
        assert(entries.take(m + 1).drop_last() =~= entries.take(m));
        lemma_previous_pass_err_prefix(entries, m + 1, current, renamed, anns);
    } else {
        assert(entries.take(m) =~= entries);
    }
}

proof fn lemma_annotation_for_found(anns: Seq<AnnotationModel>, k: Seq<char>, i: int)
    requires
        0 <= i < anns.len(),
        annotation_name(anns[i]) == k,
        all_distinct(annotation_names(anns)),
    ensures
        annotation_for(anns, k) == Some(anns[i]),
    decreases anns.len(),
{
    if i < anns.len() - 1 {
        assert(annotation_names(anns)[i] != annotation_names(anns)[anns.len() - 1]);
        assert(annotation_names(anns.drop_last()) =~= annotation_names(anns).drop_last());
        lemma_annotation_for_found(anns.drop_last(), k, i);
    }
}

proof fn lemma_annotation_for_absent(anns: Seq<AnnotationModel>, k: Seq<char>)
    requires
        forall|j: int| 0 <= j < anns.len() ==> annotation_name(#[trigger] anns[j]) != k,
    ensures
        annotation_for(anns, k) is None,
    decreases anns.len(),
{
    if anns.len() > 0 {
        assert(annotation_name(anns[anns.len() - 1]) != k);
        lemma_annotation_for_absent(anns.drop_last(), k);
    }
}

/// The annotation about `name` among annotations naming distinct types.
fn find_annotation<'a>(anns: &'a Vec<UpgradeAnnotation>, name: &Name) -> (r: Option<&'a UpgradeAnnotation>)
    requires
        all_distinct(annotation_names(annotation_models(anns@))),
    ensures
        match annotation_for(annotation_models(anns@), name.text()) {
            Some(a) => r matches Some(x) && x.model() == a,
            None => r is None,
        },
{
    let ghost ms = annotation_models(anns@);
    let mut i: usize = 0;
    while i < anns.len()
        invariant
            ms == annotation_models(anns@),
            all_distinct(annotation_names(ms)),
            0 <= i <= anns@.len(),
            forall|j: int| 0 <= j < i ==> annotation_name(#[trigger] ms[j]) != name.text(),
        decreases anns@.len() - i,
    {
        let same = str_equal(anns[i].name().as_str(), name.as_str());
        assert(ms[i as int] == anns@[i as int].model());
        if same {
            proof {
                lemma_annotation_for_found(ms, name.text(), i as int);
            }
            return Some(&anns[i]);
        }
        i = i + 1;
    }
    proof {
        lemma_annotation_for_absent(ms, name.text());
    }
    None
}

/// Whether the first `n` variants agree; the standard projection test.
fn additive_enum(previous: &DeclarationBody, current: &DeclarationBody) -> (r: bool)
    ensures
        r == additive_enum_spec(previous.model(), current.model()),
{
    match (previous, current) {
        (DeclarationBody::Enum { variants: pv }, DeclarationBody::Enum { variants: cv }) => {
            if cv.len() <= pv.len() {
                return false;
            }
            variants_same_prefix(cv, pv, pv.len())
        },
        _ => false,
    }
}

fn name_in(names: &Vec<Name>, name: &Name) -> (r: bool)
    ensures
        r == name_texts(names@).contains(name.text()),
{
    let mut i: usize = 0;
    while i < names.len()
        invariant
            0 <= i <= names@.len(),
            forall|j: int| 0 <= j < i ==> (#[trigger] names@[j]).text() != name.text(),
        decreases names@.len() - i,
    {
        if str_equal(names[i].as_str(), name.as_str()) {
            assert(name_texts(names@)[i as int] == name.text());
            return true;
        }
        i = i + 1;
    }
    assert forall|j: int| 0 <= j < name_texts(names@).len() implies name_texts(names@)[j]
        != name.text() by {
        assert(names@[j].text() != name.text());
    }
    false
}

impl AssembledSchema {
    /// All upgrade annotations of the features, checked to name each type
    /// at most once.
    fn upgrade_annotations(&self) -> (r: Result<Vec<UpgradeAnnotation>, Error>)
        ensures
            match first_duplicate(annotation_names(feature_annotations(self.feature_list()))) {
                Some(j) => r matches Err(err) && reports_plan_error(
                    err,
                    PlanError::DuplicateAnnotation(
                        annotation_names(feature_annotations(self.feature_list()))[j],
                    ),
                ),
                None => r matches Ok(v) && annotation_models(v@) == feature_annotations(
                    self.feature_list(),
                ) && all_distinct(annotation_names(annotation_models(v@))),
            },
    {
        let ghost fs = self.features@;
        let mut all: Vec<UpgradeAnnotation> = Vec::new();
        let mut f: usize = 0;
        while f < self.features.len()
            invariant
                fs == self.features@,
                0 <= f <= fs.len(),
                annotation_models(all@) == feature_annotations(fs.take(f as int)),
            decreases fs.len() - f,
        {
            let ghost before = annotation_models(all@);
            proof {
                assert(fs.take(f as int + 1).drop_last() =~= fs.take(f as int));
                assert(fs.take(f as int + 1).last() == fs[f as int]);
            }
            match &self.features[f] {
                Feature::Upgrade(upgrade) => {
                    let list = upgrade.annotations();
                    let mut k: usize = 0;
                    while k < list.len()
                        invariant
                            0 <= k <= list@.len(),
                            annotation_models(all@) == before + annotation_models(list@).take(
                                k as int,
                            ),
                        decreases list@.len() - k,
                    {
                        let copy = list[k].duplicate();
                        let ghost prior = all@;
                        let ghost cm = copy.model();
                        assert(cm == annotation_models(list@)[k as int]);
                        all.push(copy);
                        assert(all@ == prior.push(copy));
                        assert(annotation_models(all@) =~= annotation_models(prior).push(cm));
                        assert(annotation_models(list@).take(k as int + 1) =~= annotation_models(
                            list@,
                        ).take(k as int).push(cm));
                        assert(annotation_models(all@) =~= before + annotation_models(list@).take(
                            k as int + 1,
                        ));
                        k = k + 1;
                    }
                    assert(annotation_models(list@).take(list@.len() as int) =~= annotation_models(
                        list@,
                    ));
                },
                _ => {
                    assert(annotation_models(all@) =~= before + Seq::<AnnotationModel>::empty());
                },
            }
            f = f + 1;
        }
        proof {
            assert(fs.take(fs.len() as int) =~= fs);
        }
        let mut names: Vec<Name> = Vec::new();
        let mut i: usize = 0;
        while i < all.len()
            invariant
                0 <= i <= all@.len(),
                name_texts(names@) == annotation_names(annotation_models(all@)).take(i as int),
            decreases all@.len() - i,
        {
            let copy = all[i].name().duplicate();
            let ghost prior = names@;
            let ghost t = copy.text();
            assert(t == annotation_names(annotation_models(all@))[i as int]);
            names.push(copy);
            assert(names@ == prior.push(copy));
            assert(name_texts(names@) =~= name_texts(prior).push(t));
            assert(name_texts(names@) =~= annotation_names(annotation_models(all@)).take(
                i as int + 1,
            ));
            i = i + 1;
        }
        assert(annotation_names(annotation_models(all@)).take(all@.len() as int)
            =~= annotation_names(annotation_models(all@)));
        match first_duplicate_name(names.as_slice()) {
            Some(j) => {
                let name = names[j].duplicate();
                Err(Error::DuplicateUpgradeAnnotation { name })
            },
            None => {
                proof {
                    lemma_first_duplicate_none(annotation_names(annotation_models(all@)));
                }
                Ok(all)
            },
        }
    }

    /// The plan projecting `previous` onto this schema.
    pub fn plan_upgrade_from(&self, previous: &Self) -> (r: Result<UpgradePlan, Error>)
        requires
            self.wf(),
            previous.wf(),
        ensures
            match plan_spec(self.type_list(), self.feature_list(), previous.type_list()) {
                Ok(ps) => r matches Ok(plan) && plan.projection_list() == ps,
                Err(e) => r matches Err(err) && reports_plan_error(err, e),
            },
            upgrades_from_itself(*self, *previous) ==> (r matches Ok(plan) && plan.projection_list()
                == identity_projections(local_types(self.type_list()))),
            r matches Ok(plan) ==> forall|i: int| 0 <= i < plan.projection_list().len() ==> (
            #[trigger] plan.projection_list()[i] matches ProjectionModel::Standard(
                n,
                StandardProjection::AdditiveEnumVariant,
            ) ==> (local_body(previous.type_list(), n) matches Some(pb) && exists|k: int|
                0 <= k < local_types(self.type_list()).len() && local_types(self.type_list())[k].0 == n
                    && appends_variants(pb, #[trigger] local_types(self.type_list())[k].1))),
    {
        proof {
            if upgrades_from_itself(*self, *previous) {
                lemma_plan_from_self(*self);
            }
        }
        let annotations = match self.upgrade_annotations() {
            Ok(list) => list,
            Err(e) => return Err(e),
        };
        let ghost anns = annotation_models(annotations@);
        let ghost cur = self.type_list();
        let ghost prev = previous.type_list();
        proof {
            lemma_first_duplicate_none(annotation_names(anns));
            assert(cur.take(0) =~= Seq::<TypeModel>::empty());
        }
        let mut projections: Vec<Projection> = Vec::new();
        let mut renamed: Vec<Name> = Vec::new();
        assert(projection_models(projections@) =~= Seq::<ProjectionModel>::empty());
        assert(name_texts(renamed@) =~= Seq::<Seq<char>>::empty());
        let mut t: usize = 0;
        while t < self.types.len()
            invariant
                self.wf(),
                previous.wf(),
                anns == annotation_models(annotations@),
                anns == feature_annotations(self.feature_list()),
                all_distinct(annotation_names(anns)),
                upgrades_from_itself(*self, *previous) ==> plan_spec(self.type_list(), self.feature_list(), previous.type_list())
                    is Ok,
                first_duplicate(annotation_names(anns)) is None,
                cur == self.type_list(),
                prev == previous.type_list(),
                0 <= t <= cur.len(),
                current_pass(local_types(cur.take(t as int)), prev, anns) == Ok::<
                    Seq<ProjectionModel>,
                    PlanError,
                >(projection_models(projections@)),
                name_texts(renamed@) == renamed_names(projection_models(projections@)),
            decreases cur.len() - t,
        {
            let ghost before = projection_models(projections@);
            proof {
                assert(cur.take(t as int + 1).drop_last() =~= cur.take(t as int));
                assert(cur.take(t as int + 1).last() == cur[t as int]);
                assert(cur[t as int] == self.types@[t as int].model());
            }
            match &self.types[t] {
                AssembledType::Local { name, body } => {
                    let projection = match previous.body(name) {
                        Some(previous_body) => {
                            if body.same_as(previous_body) {
                                Projection::Identity { name: name.duplicate() }
                            } else if additive_enum(previous_body, body) {
                                Projection::Standard {
                                    name: name.duplicate(),
                                    kind: StandardProjection::AdditiveEnumVariant,
                                }
                            } else {
                                match find_annotation(&annotations, name) {
                                    Some(annotation) => Projection::Annotated {
                                        name: name.duplicate(),
                                        annotation: annotation.duplicate(),
                                    },
                                    None => {
                                        proof {
                                            assert(current_projection(name.text(), body.model(), prev, anns)
                                                == Err::<ProjectionModel, PlanError>(PlanError::MissingAnnotation(name.text())));
                                            assert(local_types(cur.take(t as int + 1)) =~= local_types(cur.take(t as int)).push((name.text(), body.model())));
                                            assert(local_types(cur.take(t as int)).push((name.text(), body.model())).drop_last() =~= local_types(cur.take(t as int)));
                                            let l1 = local_types(cur.take(t as int + 1));
                                            assert(l1.last() == (name.text(), body.model()));
                                            assert(current_pass(l1, prev, anns) == Err::<Seq<ProjectionModel>, PlanError>(PlanError::MissingAnnotation(name.text())));
                                            lemma_local_types_prefix(cur, t as int + 1);
                                            lemma_current_pass_err_prefix(local_types(cur), l1.len() as int, prev, anns);
                                            assert(current_pass(local_types(cur), prev, anns) == Err::<Seq<ProjectionModel>, PlanError>(PlanError::MissingAnnotation(name.text())));
                                            assert(first_duplicate(annotation_names(anns)) is None);
                                        }
                                        return Err(
                                            Error::MissingUpgradeAnnotation {
                                                name: name.duplicate(),
                                            },
                                        );
                                    },
                                }
                            }
                        },
                        None => {
                            let renamed_from = match find_annotation(&annotations, name) {
                                Some(UpgradeAnnotation::RenamedFrom { previous: previous_name, .. }) => {
                                    match previous.body(previous_name) {
                                        Some(_) => Some(previous_name),
                                        None => None,
                                    }
                                },
                                _ => None,
                            };
                            match renamed_from {
                                Some(previous_name) => {
                                    let ghost prior = renamed@;
                                    let copy = previous_name.duplicate();
                                    renamed.push(copy);
                                    assert(renamed@ == prior.push(copy));
                                    assert(name_texts(renamed@) =~= name_texts(prior).push(
                                        previous_name.text(),
                                    ));
                                    Projection::Renamed {
                                        current: name.duplicate(),
                                        previous: previous_name.duplicate(),
                                    }
                                },
                                None => Projection::Added { name: name.duplicate() },
                            }
                        },
                    };
                    let ghost pm = projection.model();
                    proof {
                        assert(current_projection(name.text(), body.model(), prev, anns)
                            == Ok::<ProjectionModel, PlanError>(pm));
                        assert(local_types(cur.take(t as int + 1)) =~= local_types(cur.take(t as int)).push((name.text(), body.model())));
                        assert(local_types(cur.take(t as int)).push((name.text(), body.model())).drop_last() =~= local_types(cur.take(t as int)));
                    }
                    projections.push(projection);
                    proof {
                        assert(projection_models(projections@) =~= before.push(pm));
                        assert(before.push(pm).drop_last() =~= before);
                    }
                },
                AssembledType::Imported { .. } => {
                    assert(local_types(cur.take(t as int + 1)) =~= local_types(cur.take(t as int)));
                },
            }
            t = t + 1;
        }
        proof {
            assert(cur.take(cur.len() as int) =~= cur);
        }
        let ghost first = projection_models(projections@);
        let ghost renamed_texts = renamed_names(first);
        proof {
            assert(prev.take(0) =~= Seq::<TypeModel>::empty());
            assert(first.take(first.len() as int) =~= first);
            assert(first.skip(first.len() as int) =~= Seq::<ProjectionModel>::empty());
        }
        let mut p: usize = 0;
        while p < previous.types.len()
            invariant
                self.wf(),
                previous.wf(),
                upgrades_from_itself(*self, *previous) ==> plan_spec(self.type_list(), self.feature_list(), previous.type_list())
                    is Ok,
                anns == annotation_models(annotations@),
                all_distinct(annotation_names(anns)),
                cur == self.type_list(),
                prev == previous.type_list(),
                name_texts(renamed@) == renamed_texts,
                renamed_texts == renamed_names(first),
                current_pass(local_types(cur), prev, anns) == Ok::<Seq<ProjectionModel>, PlanError>(
                    first,
                ),
                first_duplicate(annotation_names(anns)) is None,
                anns == feature_annotations(self.feature_list()),
                0 <= p <= prev.len(),
                ({
                    let current = projection_models(projections@);
                    &&& current.len() >= first.len()
                    &&& current.take(first.len() as int) == first
                    &&& previous_pass(local_types(prev.take(p as int)), cur, renamed_texts, anns)
                        == Ok::<Seq<ProjectionModel>, PlanError>(current.skip(first.len() as int))
                }),
            decreases prev.len() - p,
        {
            let ghost before = projection_models(projections@);
            proof {
                assert(prev.take(p as int + 1).drop_last() =~= prev.take(p as int));
                assert(prev.take(p as int + 1).last() == prev[p as int]);
                assert(prev[p as int] == previous.types@[p as int].model());
            }
            match &previous.types[p] {
                AssembledType::Local { name, .. } => {
                    let kept = match self.body(name) {
                        Some(_) => true,
                        None => name_in(&renamed, name),
                    };
                    if !kept {
                        let projection = match find_annotation(&annotations, name) {
                            Some(UpgradeAnnotation::Drop(_)) => Projection::Dropped {
                                name: name.duplicate(),
                            },
                            Some(UpgradeAnnotation::Untranslatable(_)) => Projection::Untranslatable {
                                name: name.duplicate(),
                            },
                            _ => {
                                proof {
                                    assert(previous_projection(name.text(), cur, renamed_texts, anns)
                                        == Err::<Option<ProjectionModel>, PlanError>(PlanError::RemovedNeedsAnnotation(name.text())));
                                    let l1 = local_types(prev.take(p as int + 1));
                                    assert(prev[p as int] matches TypeModel::Local(_, _));
                                    let b = prev[p as int]->Local_1;
                                    assert(l1 =~= local_types(prev.take(p as int)).push((name.text(), b)));
                                    assert(l1.drop_last() =~= local_types(prev.take(p as int)));
                                    assert(l1.last() == (name.text(), b));
                                    assert(previous_pass(l1, cur, renamed_texts, anns) == Err::<Seq<ProjectionModel>, PlanError>(PlanError::RemovedNeedsAnnotation(name.text())));
                                    lemma_local_types_prefix(prev, p as int + 1);
                                    lemma_previous_pass_err_prefix(local_types(prev), l1.len() as int, cur, renamed_texts, anns);
                                    assert(previous_pass(local_types(prev), cur, renamed_texts, anns) == Err::<Seq<ProjectionModel>, PlanError>(PlanError::RemovedNeedsAnnotation(name.text())));
                                }
                                return Err(
                                    Error::RemovedTypeRequiresAnnotation { name: name.duplicate() },
                                );
                            },
                        };
                        let ghost pm = projection.model();
                        proof {
                            assert(previous_projection(name.text(), cur, renamed_texts, anns)
                                == Ok::<Option<ProjectionModel>, PlanError>(Some(pm)));
                            let l1 = local_types(prev.take(p as int + 1));
                            let b = prev[p as int]->Local_1;
                            assert(l1 =~= local_types(prev.take(p as int)).push((name.text(), b)));
                            assert(l1.drop_last() =~= local_types(prev.take(p as int)));
                        }
                        projections.push(projection);
                        proof {
                            assert(projection_models(projections@) =~= before.push(pm));
                            assert(before.push(pm).take(first.len() as int) =~= before.take(
                                first.len() as int,
                            ));
                            assert(before.push(pm).skip(first.len() as int) =~= before.skip(
                                first.len() as int,
                            ).push(pm));
                        }
                    } else {
                        proof {
                            assert(previous_projection(name.text(), cur, renamed_texts, anns)
                                == Ok::<Option<ProjectionModel>, PlanError>(None));
                            let l1 = local_types(prev.take(p as int + 1));
                            let b = prev[p as int]->Local_1;
                            assert(l1 =~= local_types(prev.take(p as int)).push((name.text(), b)));
                            assert(l1.drop_last() =~= local_types(prev.take(p as int)));
                        }
                    }
                },
                AssembledType::Imported { .. } => {
                    assert(local_types(prev.take(p as int + 1)) =~= local_types(prev.take(p as int)));
                },
            }
            p = p + 1;
        }
        proof {
            assert(prev.take(prev.len() as int) =~= prev);
            let all = projection_models(projections@);
            assert(all =~= all.take(first.len() as int) + all.skip(first.len() as int));
            lemma_additive_projection_only_appends(cur, self.feature_list(), prev);
        }
        Ok(UpgradePlan::new(projections))
    }
}

// ── Laws of upgrade planning ────────────────────────────────────────

/// The identity projection of every entry, in order.
pub open spec fn identity_projections(entries: Seq<(Seq<char>, BodyModel)>) -> Seq<ProjectionModel> {
    Seq::new(entries.len(), |i: int| ProjectionModel::Identity(entries[i].0))
}

proof fn lemma_local_types_found(ts: Seq<TypeModel>, k: int)
    requires
        0 <= k < local_types(ts).len(),
    ensures
        exists|i: int|
            0 <= i < ts.len() && ts[i] == TypeModel::Local(local_types(ts)[k].0, local_types(ts)[k].1),
    decreases ts.len(),
{
    let prev = local_types(ts.drop_last());
    match ts.last() {
        TypeModel::Local(n, b) => {
            if k < prev.len() {
                lemma_local_types_found(ts.drop_last(), k);
                let i = choose|i: int|
                    0 <= i < ts.drop_last().len() && ts.drop_last()[i] == TypeModel::Local(prev[k].0, prev[k].1);
                assert(ts[i] == ts.drop_last()[i]);
            } else {
                assert(ts[ts.len() - 1] == TypeModel::Local(n, b));
            }
        },
        TypeModel::Imported(_, _) => {
            lemma_local_types_found(ts.drop_last(), k);
            let i = choose|i: int|
                0 <= i < ts.drop_last().len() && ts.drop_last()[i] == TypeModel::Local(prev[k].0, prev[k].1);
            assert(ts[i] == ts.drop_last()[i]);
        },
    }
}

/// In a run with unique names, each local type's body is found by its name.
proof fn lemma_local_types_bodies(ts: Seq<TypeModel>)
    requires
        keys_sorted(type_names(ts)),
    ensures
        forall|k: int|
            0 <= k < local_types(ts).len() ==> local_body(ts, (#[trigger] local_types(ts)[k]).0)
                == Some(local_types(ts)[k].1),
{
    assert forall|k: int| 0 <= k < local_types(ts).len() implies local_body(ts, (#[trigger] local_types(ts)[k]).0)
        == Some(local_types(ts)[k].1) by {
        lemma_local_types_found(ts, k);
        let e = local_types(ts)[k];
        let i = choose|i: int| 0 <= i < ts.len() && ts[i] == TypeModel::Local(e.0, e.1);
        lemma_sorted_lookup(ts, e.0, i);
    }
}

proof fn lemma_current_pass_identity(
    entries: Seq<(Seq<char>, BodyModel)>,
    ts: Seq<TypeModel>,
    anns: Seq<AnnotationModel>,
)
    requires
        forall|k: int| 0 <= k < entries.len() ==> local_body(ts, (#[trigger] entries[k]).0) == Some(entries[k].1),
    ensures
        current_pass(entries, ts, anns) == Ok::<Seq<ProjectionModel>, PlanError>(identity_projections(entries)),
    decreases entries.len(),
{
    if entries.len() > 0 {
        let prefix = entries.drop_last();
        assert forall|k: int| 0 <= k < prefix.len() implies local_body(ts, (#[trigger] prefix[k]).0) == Some(prefix[k].1) by {
            assert(prefix[k] == entries[k]);
        }
        lemma_current_pass_identity(prefix, ts, anns);
        assert(entries.last() == entries[entries.len() - 1]);
        assert(identity_projections(entries) =~= identity_projections(prefix).push(
            ProjectionModel::Identity(entries.last().0),
        ));
    } else {
        assert(identity_projections(entries) =~= Seq::<ProjectionModel>::empty());
    }
}

proof fn lemma_no_renames(entries: Seq<(Seq<char>, BodyModel)>)
    ensures
        renamed_names(identity_projections(entries)) == Seq::<Seq<char>>::empty(),
    decreases entries.len(),
{
    if entries.len() > 0 {
        let prefix = entries.drop_last();
        lemma_no_renames(prefix);
        assert(identity_projections(entries).drop_last() =~= identity_projections(prefix));
    } else {
        assert(identity_projections(entries) =~= Seq::<ProjectionModel>::empty());
    }
}

proof fn lemma_previous_pass_kept(
    entries: Seq<(Seq<char>, BodyModel)>,
    ts: Seq<TypeModel>,
    anns: Seq<AnnotationModel>,
)
    requires
        forall|k: int| 0 <= k < entries.len() ==> local_body(ts, (#[trigger] entries[k]).0) is Some,
    ensures
        previous_pass(entries, ts, Seq::empty(), anns) == Ok::<Seq<ProjectionModel>, PlanError>(Seq::empty()),
    decreases entries.len(),
{
    if entries.len() > 0 {
        let prefix = entries.drop_last();
        assert forall|k: int| 0 <= k < prefix.len() implies local_body(ts, (#[trigger] prefix[k]).0) is Some by {
            assert(prefix[k] == entries[k]);
        }
        lemma_previous_pass_kept(prefix, ts, anns);
        assert(entries.last() == entries[entries.len() - 1]);
    }
}

/// `previous` holds the same types as `s`, whose upgrade annotations name
/// each type at most once.
pub open spec fn upgrades_from_itself(s: AssembledSchema, previous: AssembledSchema) -> bool {
    &&& previous.type_list() == s.type_list()
    &&& first_duplicate(annotation_names(feature_annotations(s.feature_list()))) is None
}

/// A schema whose annotations name each type at most once upgrades from
/// itself by identity: every local type, in name order, projects onto
/// itself, and nothing is added, renamed or dropped.
pub proof fn lemma_plan_from_self(s: AssembledSchema)
    requires
        s.wf(),
        first_duplicate(annotation_names(feature_annotations(s.feature_list()))) is None,
    ensures
        plan_spec(s.type_list(), s.feature_list(), s.type_list()) == Ok::<Seq<ProjectionModel>, PlanError>(
            identity_projections(local_types(s.type_list())),
        ),
{
    let ts = s.type_list();
    let anns = feature_annotations(s.feature_list());
    let entries = local_types(ts);
    lemma_local_types_bodies(ts);
    lemma_current_pass_identity(entries, ts, anns);
    lemma_no_renames(entries);
    lemma_previous_pass_kept(entries, ts, anns);
    assert(identity_projections(entries) + Seq::<ProjectionModel>::empty() =~= identity_projections(entries));
}

/// A local body found by name belongs to a local type of that name.
pub proof fn lemma_local_body_found(ts: Seq<TypeModel>, k: Seq<char>)
    ensures
        local_body(ts, k) is Some ==> exists|i: int|
            0 <= i < ts.len() && ts[i] == TypeModel::Local(k, local_body(ts, k)->Some_0),
{
    lemma_last_named_result(ts, k);
}

/// An enum body `current` that keeps every variant of `previous`, in
/// place, and adds at least one after them.
pub open spec fn appends_variants(previous: BodyModel, current: BodyModel) -> bool {
    match (previous, current) {
        (BodyModel::Enum(pv), BodyModel::Enum(cv)) => cv.len() > pv.len() && forall|j: int|
            0 <= j < pv.len() ==> #[trigger] cv[j] == pv[j],
        _ => false,
    }
}

proof fn lemma_current_pass_items(
    entries: Seq<(Seq<char>, BodyModel)>,
    previous: Seq<TypeModel>,
    anns: Seq<AnnotationModel>,
)
    requires
        current_pass(entries, previous, anns) is Ok,
    ensures
        current_pass(entries, previous, anns)->Ok_0.len() == entries.len(),
        forall|i: int| 0 <= i < entries.len() ==> current_projection(
            (#[trigger] entries[i]).0,
            entries[i].1,
            previous,
            anns,
        ) == Ok::<ProjectionModel, PlanError>(current_pass(entries, previous, anns)->Ok_0[i]),
    decreases entries.len(),
{
    if entries.len() > 0 {
        let prev = entries.drop_last();
        lemma_current_pass_items(prev, previous, anns);
        assert forall|i: int| 0 <= i < entries.len() implies current_projection(
            (#[trigger] entries[i]).0,
            entries[i].1,
            previous,
            anns,
        ) == Ok::<ProjectionModel, PlanError>(current_pass(entries, previous, anns)->Ok_0[i]) by {
            if i < entries.len() - 1 {
                assert(entries[i] == prev[i]);
            }
        }
    }
}

proof fn lemma_previous_pass_items(
    entries: Seq<(Seq<char>, BodyModel)>,
    current: Seq<TypeModel>,
    renamed: Seq<Seq<char>>,
    anns: Seq<AnnotationModel>,
)
    requires
        previous_pass(entries, current, renamed, anns) is Ok,
    ensures
        forall|k: int| 0 <= k < previous_pass(entries, current, renamed, anns)->Ok_0.len() ==> (
        #[trigger] previous_pass(entries, current, renamed, anns)->Ok_0[k]) is Dropped || previous_pass(
            entries,
            current,
            renamed,
            anns,
        )->Ok_0[k] is Untranslatable,
    decreases entries.len(),
{
    if entries.len() > 0 {
        lemma_previous_pass_items(entries.drop_last(), current, renamed, anns);
    }
}

/// A plan projects a type by the standard additive-enum projection only
/// when the type is an enum in both versions and the current enum keeps
/// every previous variant in its place and adds at least one after them;
/// reordered or changed variants need an annotation instead.
pub proof fn lemma_additive_projection_only_appends(
    current: Seq<TypeModel>,
    features: Seq<Feature>,
    previous: Seq<TypeModel>,
)
    requires
        plan_spec(current, features, previous) is Ok,
    ensures
        forall|i: int| 0 <= i < plan_spec(current, features, previous)->Ok_0.len() ==> (#[trigger] plan_spec(
            current,
            features,
            previous,
        )->Ok_0[i] matches ProjectionModel::Standard(n, StandardProjection::AdditiveEnumVariant) ==> (
        local_body(previous, n) matches Some(pb) && exists|k: int|
            0 <= k < local_types(current).len() && local_types(current)[k].0 == n && appends_variants(
                pb,
                #[trigger] local_types(current)[k].1,
            ))),
{
    let anns = feature_annotations(features);
    let entries = local_types(current);
    let ps = current_pass(entries, previous, anns)->Ok_0;
    let qs = previous_pass(local_types(previous), current, renamed_names(ps), anns)->Ok_0;
    lemma_current_pass_items(entries, previous, anns);
    lemma_previous_pass_items(local_types(previous), current, renamed_names(ps), anns);
    let all = plan_spec(current, features, previous)->Ok_0;
    assert(all == ps + qs);
    assert forall|i: int| 0 <= i < all.len() implies (#[trigger] all[i] matches ProjectionModel::Standard(
        n,
        StandardProjection::AdditiveEnumVariant,
    ) ==> (local_body(previous, n) matches Some(pb) && exists|k: int|
        0 <= k < local_types(current).len() && local_types(current)[k].0 == n && appends_variants(
            pb,
            #[trigger] local_types(current)[k].1,
        ))) by {
        if i >= ps.len() {
            assert(all[i] == qs[i - ps.len()]);
        } else {
            assert(all[i] == ps[i]);
            if let ProjectionModel::Standard(n, StandardProjection::AdditiveEnumVariant) = all[i] {
                let e = entries[i];
                assert(current_projection(e.0, e.1, previous, anns) == Ok::<ProjectionModel, PlanError>(ps[i]));
                let pb = local_body(previous, e.0)->Some_0;
                assert(additive_enum_spec(pb, e.1));
                assert(appends_variants(pb, entries[i].1));
            }
        }
    }
}

} // verus!
