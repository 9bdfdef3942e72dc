//! `Chain_Registry`: the derivation tree of merit chains, chain lifecycle, and the
//! `(parentId, domain)` uniqueness index.
//!
//! The registry always holds the depth-0 `GMC_Base` root and keeps its chains in id
//! order. New chains enter through [`ChainRegistry::derive`], which runs the ordered validation
//! (missing field → parent exists → no cycle → depth bound → `(parent, domain)`
//! unique) and, on success, records the chain with `depth = parent.depth + 1` and
//! `path = parent.path + [id]`. Every rejected request leaves the registry unchanged.
use vstd::prelude::*;

use crate::error::{GmcError, GmcResult};
use crate::types::{
    lemma_lex_irreflexive, lemma_lex_total, lemma_lex_transitive, lex_lt, str_eq, str_len,
    str_lex_lt, ChainId, FayID, Timestamp,
};

verus! {

/// Maximum depth of the derivation tree (the root is depth 0).
pub const MAX_DEPTH: u32 = 16;

/// How a derived chain came into existence.
#[derive(Debug, Clone, Copy, PartialEq, Eq, PartialOrd, Ord, Hash, Structural)]
pub enum OriginType {
    /// A creation proposal reached the governance threshold.
    VoteInitiated,
    /// A qualified steward requested the chain.
    StewardInitiated,
    /// An institution's application passed review.
    InstitutionApplied,
}

/// Lifecycle state of a chain; chains are born `Active`.
#[derive(Debug, Clone, Copy, PartialEq, Eq, PartialOrd, Ord, Hash, Default, Structural)]
pub enum Lifecycle {
    /// Operational and accepting contributions.
    #[default]
    Active,
    /// Temporarily halted; may be reactivated.
    Suspended,
    /// Permanently retired.
    Archived,
}

/// Reference to a chain's own evaluation mechanism (a chain without one inherits the
/// nearest ancestor's).
#[derive(Debug, Clone, Copy, PartialEq, Eq, Default, Structural)]
pub struct EvaluationMechanismRef;

impl EvaluationMechanismRef {
    /// Builds the reference.
    pub fn placeholder() -> (r: Self)
        ensures
            r == EvaluationMechanismRef,
    {
        EvaluationMechanismRef
    }
}

/// Reference to a chain's quota / refresh-period / inflation configuration.
#[derive(Debug, Clone, Copy, PartialEq, Eq, Default, Structural)]
pub struct ChainConfigRef;

impl ChainConfigRef {
    /// Builds the reference.
    pub fn placeholder() -> (r: Self)
        ensures
            r == ChainConfigRef,
    {
        ChainConfigRef
    }
}

/// The text of an optional chain id.
pub open spec fn opt_id(o: Option<ChainId>) -> Option<Seq<char>> {
    match o {
        Some(c) => Some(c@),
        None => None,
    }
}

/// The text of an optional borrowed chain id.
pub open spec fn opt_ref_id(o: Option<&ChainId>) -> Option<Seq<char>> {
    match o {
        Some(c) => Some(c@),
        None => None,
    }
}

/// A node of the derivation tree: the `GMC_Base` root or a derived chain.
#[derive(Debug, Clone, PartialEq, Eq)]
pub struct NestedMeritChain {
    /// This chain's identifier.
    pub id: ChainId,
    /// `None` for the root, the parent's id for every derived chain.
    pub parent_id: Option<ChainId>,
    /// The domain this chain owns.
    pub domain: String,
    /// Ordered derivation path from the root down to this chain.
    pub path: Vec<ChainId>,
    /// Hierarchy depth; the root is 0.
    pub depth: u32,
    /// Stewards maintaining this chain.
    pub stewards: Vec<FayID>,
    /// Creation channel; `None` for the root.
    pub origin_type: Option<OriginType>,
    /// On-chain creation time.
    pub created_at: Timestamp,
    /// Lifecycle state.
    pub lifecycle: Lifecycle,
    /// The chain's own evaluation mechanism; `None` means "inherit".
    pub evaluation_mechanism: Option<EvaluationMechanismRef>,
    /// The chain's configuration reference, if set.
    pub config: Option<ChainConfigRef>,
}

impl NestedMeritChain {
    /// The `(parentId, domain)` key of this chain, by text.
    pub open spec fn key(&self) -> (Option<Seq<char>>, Seq<char>) {
        (opt_id(self.parent_id), self.domain@)
    }

    /// `true` for a root node: no parent and depth 0.
    pub open spec fn spec_is_root(&self) -> bool {
        self.parent_id is None && self.depth == 0
    }

    /// Builds the depth-0 root with `path = [id]`, no parent and no origin.
    pub fn root(id: ChainId, domain: &str, stewards: Vec<FayID>, created_at: Timestamp) -> (c:
        Self)
        ensures
            c.id == id,
            c.parent_id is None,
            c.domain@ == domain@,
            c.path@ == seq![id],
            c.depth == 0,
            c.stewards == stewards,
            c.origin_type is None,
            c.created_at == created_at,
            c.lifecycle == Lifecycle::Active,
            c.evaluation_mechanism is None,
            c.config is None,
    {
        let mut path = Vec::new();
        path.push(id.clone());
        NestedMeritChain {
            id,
            parent_id: None,
            domain: domain.to_owned(),
            path,
            depth: 0,
            stewards,
            origin_type: None,
            created_at,
            lifecycle: Lifecycle::Active,
            evaluation_mechanism: None,
            config: None,
        }
    }

    /// Builds a derived chain from already-computed `depth` and `path`; a chain
    /// without any steward is rejected with `MissingField`.
    pub fn new(
        id: ChainId,
        parent_id: ChainId,
        domain: &str,
        depth: u32,
        path: Vec<ChainId>,
        stewards: Vec<FayID>,
        origin_type: OriginType,
        created_at: Timestamp,
    ) -> (r: GmcResult<Self>)
        ensures
            stewards@.len() == 0 <==> r == Err::<Self, GmcError>(GmcError::MissingField),
            r is Ok || r is Err && stewards@.len() == 0,
            r matches Ok(c) ==> {
                &&& c.id == id
                &&& c.parent_id == Some(parent_id)
                &&& c.domain@ == domain@
                &&& c.depth == depth
                &&& c.path == path
                &&& c.stewards == stewards
                &&& c.origin_type == Some(origin_type)
                &&& c.created_at == created_at
                &&& c.lifecycle == Lifecycle::Active
                &&& c.evaluation_mechanism is None
                &&& c.config is None
            },
    {
        if stewards.len() == 0 {
            return Err(GmcError::MissingField);
        }
        Ok(NestedMeritChain {
            id,
            parent_id: Some(parent_id),
            domain: domain.to_owned(),
            path,
            depth,
            stewards,
            origin_type: Some(origin_type),
            created_at,
            lifecycle: Lifecycle::Active,
            evaluation_mechanism: None,
            config: None,
        })
    }

    /// Attaches an evaluation-mechanism reference.
    pub fn with_evaluation_mechanism(self, mechanism: EvaluationMechanismRef) -> (c: Self)
        ensures
            c == (NestedMeritChain { evaluation_mechanism: Some(mechanism), ..self }),
    {
        let mut c = self;
        c.evaluation_mechanism = Some(mechanism);
        c
    }

    /// Attaches a configuration reference.
    pub fn with_config(self, config: ChainConfigRef) -> (c: Self)
        ensures
            c == (NestedMeritChain { config: Some(config), ..self }),
    {
        let mut c = self;
        c.config = Some(config);
        c
    }

    /// This chain's identifier.
    pub fn id(&self) -> (r: &ChainId)
        ensures
            *r == self.id,
    {
        &self.id
    }

    /// The parent id, or `None` for the root.
    pub fn parent_id(&self) -> (r: Option<&ChainId>)
        ensures
            r matches Some(p) ==> self.parent_id == Some(*p),
            r is None <==> self.parent_id is None,
    {
        match &self.parent_id {
            Some(p) => Some(p),
            None => None,
        }
    }

    /// The domain this chain owns.
    pub fn domain(&self) -> (r: &str)
        ensures
            r@ == self.domain@,
    {
        self.domain.as_str()
    }

    /// The derivation path from the root to this chain.
    pub fn path(&self) -> (r: &[ChainId])
        ensures
            r@ == self.path@,
    {
        self.path.as_slice()
    }

    /// Hierarchy depth (root = 0).
    pub fn depth(&self) -> (r: u32)
        ensures
            r == self.depth,
    {
        self.depth
    }

    /// The stewards maintaining this chain.
    pub fn stewards(&self) -> (r: &[FayID])
        ensures
            r@ == self.stewards@,
    {
        self.stewards.as_slice()
    }

    /// The creation channel, or `None` for the root.
    pub fn origin_type(&self) -> (r: Option<OriginType>)
        ensures
            r == self.origin_type,
    {
        self.origin_type
    }

    /// On-chain creation time.
    pub fn created_at(&self) -> (r: Timestamp)
        ensures
            r == self.created_at,
    {
        self.created_at
    }

    /// Current lifecycle state.
    pub fn lifecycle(&self) -> (r: Lifecycle)
        ensures
            r == self.lifecycle,
    {
        self.lifecycle
    }

    /// This chain's own evaluation mechanism, if any.
    pub fn evaluation_mechanism(&self) -> (r: Option<&EvaluationMechanismRef>)
        ensures
            r matches Some(m) ==> self.evaluation_mechanism == Some(*m),
            r is None <==> self.evaluation_mechanism is None,
    {
        match &self.evaluation_mechanism {
            Some(m) => Some(m),
            None => None,
        }
    }

    /// This chain's configuration reference, if set.
    pub fn config(&self) -> (r: Option<&ChainConfigRef>)
        ensures
            r matches Some(m) ==> self.config == Some(*m),
            r is None <==> self.config is None,
    {
        match &self.config {
            Some(m) => Some(m),
            None => None,
        }
    }

    /// `true` iff this is a root node (no parent, depth 0).
    pub fn is_root(&self) -> (b: bool)
        ensures
            b == self.spec_is_root(),
    {
        self.parent_id.is_none() && self.depth == 0
    }

    /// Sets the lifecycle state; every other field is unchanged.
    pub fn set_lifecycle(&mut self, state: Lifecycle)
        ensures
            *final(self) == (NestedMeritChain { lifecycle: state, ..*old(self) }),
    {
        self.lifecycle = state;
    }
}

/// A request to derive a new chain under an existing parent.
#[derive(Debug, Clone, PartialEq, Eq)]
pub struct DeriveRequest {
    /// Identifier the new chain should take.
    pub proposed_id: ChainId,
    /// The parent chain to derive under.
    pub parent_id: ChainId,
    /// The domain the new chain will own.
    pub domain: String,
    /// Stewards of the new chain (at least one is required).
    pub stewards: Vec<FayID>,
    /// How the derivation was initiated.
    pub origin_type: OriginType,
    /// On-chain creation time.
    pub created_at: Timestamp,
}

impl DeriveRequest {
    /// Builds a request from its parts.
    pub fn new(
        proposed_id: ChainId,
        parent_id: ChainId,
        domain: &str,
        stewards: Vec<FayID>,
        origin_type: OriginType,
        created_at: Timestamp,
    ) -> (r: Self)
        ensures
            r.proposed_id == proposed_id,
            r.parent_id == parent_id,
            r.domain@ == domain@,
            r.stewards == stewards,
            r.origin_type == origin_type,
            r.created_at == created_at,
    {
        DeriveRequest {
            proposed_id,
            parent_id,
            domain: domain.to_owned(),
            stewards,
            origin_type,
            created_at,
        }
    }
}

/// `true` when some chain in `s` has the id `id`.
pub open spec fn has_id(s: Seq<NestedMeritChain>, id: Seq<char>) -> bool {
    exists|i: int| 0 <= i < s.len() && s[i].id@ == id
}

/// The position of the chain with id `id` in `s`, if any.
pub open spec fn index_of(s: Seq<NestedMeritChain>, id: Seq<char>) -> Option<int> {
    if has_id(s, id) {
        Some(choose|i: int| 0 <= i < s.len() && s[i].id@ == id)
    } else {
        None
    }
}

/// `true` when some chain in `s` has the `(parentId, domain)` key `key`.
pub open spec fn has_key(s: Seq<NestedMeritChain>, key: (Option<Seq<char>>, Seq<char>)) -> bool {
    exists|i: int| 0 <= i < s.len() && s[i].key() == key
}

/// No two chains share an id.
pub open spec fn ids_unique(s: Seq<NestedMeritChain>) -> bool {
    forall|i: int, j: int| 0 <= i < s.len() && 0 <= j < s.len() && i != j ==> s[i].id@ != s[j].id@
}

/// No two chains share a `(parentId, domain)` key.
pub open spec fn keys_unique(s: Seq<NestedMeritChain>) -> bool {
    forall|i: int, j: int|
        0 <= i < s.len() && 0 <= j < s.len() && i != j ==> s[i].key() != s[j].key()
}

/// `true` when walking parent links from `cur` (at most `fuel` steps) meets `target`.
pub open spec fn reaches(s: Seq<NestedMeritChain>, cur: Seq<char>, target: Seq<char>, fuel: nat) -> bool
    decreases fuel,
{
    if cur == target {
        true
    } else if fuel == 0 {
        false
    } else {
        match index_of(s, cur) {
            Some(i) => match s[i].parent_id {
                Some(p) => reaches(s, p@, target, (fuel - 1) as nat),
                None => false,
            },
            None => false,
        }
    }
}

/// `true` when attaching `proposed` under `target_parent` would make a chain its own
/// ancestor: the two are the same, or `target_parent` lies in the registered
/// `proposed` chain's subtree (found by walking parent links, at most one step per
/// registered chain).
pub open spec fn forms_cycle(s: Seq<NestedMeritChain>, target_parent: Seq<char>, proposed: Seq<
    char,
>) -> bool {
    target_parent == proposed || (has_id(s, proposed) && reaches(
        s,
        target_parent,
        proposed,
        s.len(),
    ))
}

/// The error `derive` returns for `req` against the chains `s`, or `None` when the
/// request is accepted; the checks run in this order.
pub open spec fn derive_error(s: Seq<NestedMeritChain>, req: DeriveRequest) -> Option<GmcError> {
    if req.parent_id@.len() == 0 || req.domain@.len() == 0 {
        Some(GmcError::MissingField)
    } else if !has_id(s, req.parent_id@) {
        Some(GmcError::ParentNotFound)
    } else if forms_cycle(s, req.parent_id@, req.proposed_id@) {
        Some(GmcError::CycleConflict)
    } else if s[index_of(s, req.parent_id@).unwrap()].depth >= MAX_DEPTH {
        Some(GmcError::DepthExceeded)
    } else if has_key(s, (Some(req.parent_id@), req.domain@)) {
        Some(GmcError::DomainConflict)
    } else if req.stewards@.len() == 0 {
        Some(GmcError::MissingField)
    } else if has_id(s, req.proposed_id@) {
        Some(GmcError::DomainConflict)
    } else {
        None
    }
}

/// What [`ChainRegistry::derive`] does: on a rejected request (see [`derive_error`])
/// the error with `n == s`; otherwise `Ok(proposed_id)` and `n` is `s` with the new
/// chain (see [`derived_as`]) inserted at its place in id order.
pub open spec fn derive_outcome(
    s: Seq<NestedMeritChain>,
    n: Seq<NestedMeritChain>,
    req: DeriveRequest,
    r: GmcResult<ChainId>,
) -> bool {
    match derive_error(s, req) {
        Some(e) => r == Err::<ChainId, GmcError>(e) && n == s,
        None => {
            &&& r == Ok::<ChainId, GmcError>(req.proposed_id)
            &&& exists|p: int|
                0 <= p <= s.len() && n == s.insert(p, n[p]) && #[trigger] derived_as(
                    n[p],
                    s[index_of(s, req.parent_id@).unwrap()],
                    req,
                )
        },
    }
}

/// `c` is the chain a successful `derive` of `req` under `parent` stores.
pub open spec fn derived_as(c: NestedMeritChain, parent: NestedMeritChain, req: DeriveRequest) -> bool {
    &&& c.id == req.proposed_id
    &&& c.parent_id == Some(req.parent_id)
    &&& c.domain@ == req.domain@
    &&& c.depth == parent.depth + 1
    &&& c.path@ == parent.path@.push(req.proposed_id)
    &&& c.stewards == req.stewards
    &&& c.origin_type == Some(req.origin_type)
    &&& c.created_at == req.created_at
    &&& c.lifecycle == Lifecycle::Active
    &&& c.evaluation_mechanism is None
    &&& c.config is None
}

/// The shape every chain built from a root by derivation has: its path has
/// `depth + 1` entries, starts at `root` and ends at the chain itself; its depth is at
/// most [`MAX_DEPTH`].
pub open spec fn well_shaped(c: NestedMeritChain, root: Seq<char>) -> bool {
    &&& c.path@.len() == c.depth + 1
    &&& c.path@[0]@ == root
    &&& c.path@.last()@ == c.id@
    &&& c.depth <= MAX_DEPTH
}

/// Every chain of `s` is well shaped, and every parent it names is registered in `s`.
pub open spec fn tree_shaped(s: Seq<NestedMeritChain>, root: Seq<char>) -> bool {
    forall|i: int|
        0 <= i < s.len() ==> well_shaped(#[trigger] s[i], root) && (s[i].parent_id matches Some(
            p,
        ) ==> has_id(s, p@))
}

/// A root node is well shaped with respect to its own id.
pub proof fn lemma_root_well_shaped(c: NestedMeritChain)
    requires
        c.path@ == seq![c.id],
        c.depth == 0,
    ensures
        well_shaped(c, c.id@),
{
}

/// Derivation keeps the tree's shape: a derived chain sits one level below its parent
/// (so never deeper than [`MAX_DEPTH`]), its path extends its parent's path by its own
/// id, and it names a registered parent; a registry all of whose chains are well shaped
/// stays so.
pub proof fn lemma_derive_keeps_tree_shape(
    s: Seq<NestedMeritChain>,
    n: Seq<NestedMeritChain>,
    req: DeriveRequest,
    r: GmcResult<ChainId>,
    root: Seq<char>,
)
    requires
        derive_outcome(s, n, req, r),
        tree_shaped(s, root),
    ensures
        tree_shaped(n, root),
        r is Ok ==> exists|p: int|
            0 <= p < n.len() && {
                let parent = s[index_of(s, req.parent_id@).unwrap()];
                let c = #[trigger] n[p];
                &&& c.id == req.proposed_id
                &&& c.depth == parent.depth + 1
                &&& c.depth <= MAX_DEPTH
                &&& c.path@ == parent.path@.push(req.proposed_id)
            },
{
    if derive_error(s, req) is None {
        let pi = index_of(s, req.parent_id@).unwrap();
        let parent = s[pi];
        assert(well_shaped(parent, root));
        let p = choose|p: int|
            0 <= p <= s.len() && n == s.insert(p, n[p]) && #[trigger] derived_as(n[p], parent, req);
        let c = n[p];
        assert(c.path@[0] == parent.path@[0]);
        assert forall|i: int| 0 <= i < n.len() implies well_shaped(#[trigger] n[i], root) && (
        n[i].parent_id matches Some(q) ==> has_id(n, q@)) by {
            if i < p {
                assert(n[i] == s[i]);
                if let Some(q) = s[i].parent_id {
                    let k = choose|k: int| 0 <= k < s.len() && s[k].id@ == q@;
                    if k < p {
                        assert(n[k] == s[k]);
                    } else {
                        assert(n[k + 1] == s[k]);
                    }
                }
            } else if i > p {
                assert(n[i] == s[i - 1]);
                if let Some(q) = s[i - 1].parent_id {
                    let k = choose|k: int| 0 <= k < s.len() && s[k].id@ == q@;
                    if k < p {
                        assert(n[k] == s[k]);
                    } else {
                        assert(n[k + 1] == s[k]);
                    }
                }
            } else {
                if pi < p {
                    assert(n[pi] == s[pi]);
                } else {
                    assert(n[pi + 1] == s[pi]);
                }
            }
        }
        assert(n[p].id == req.proposed_id);
    }
}

/// Changing a chain's lifecycle keeps the tree's shape.
pub proof fn lemma_set_lifecycle_keeps_tree_shape(
    s: Seq<NestedMeritChain>,
    i: int,
    state: Lifecycle,
    root: Seq<char>,
)
    requires
        0 <= i < s.len(),
        tree_shaped(s, root),
    ensures
        tree_shaped(s.update(i, NestedMeritChain { lifecycle: state, ..s[i] }), root),
{
    let n = s.update(i, NestedMeritChain { lifecycle: state, ..s[i] });
    assert forall|j: int| 0 <= j < n.len() implies well_shaped(#[trigger] n[j], root) && (
    n[j].parent_id matches Some(p) ==> has_id(n, p@)) by {
        assert(well_shaped(s[j], root));
        if let Some(p) = n[j].parent_id {
            assert(has_id(s, p@));
            let k = choose|k: int| 0 <= k < s.len() && s[k].id@ == p@;
            assert(n[k].id == s[k].id);
        }
    }
}

/// The nearest chain on `path[0..k)` (searched from `path[k - 1]` toward the root) that
/// defines its own evaluation mechanism, and that mechanism.
pub open spec fn resolve_on_path(s: Seq<NestedMeritChain>, path: Seq<ChainId>, k: int) -> Option<
    EvaluationMechanismRef,
>
    decreases k,
{
    if k <= 0 || k > path.len() {
        None
    } else {
        match index_of(s, path[k - 1]@) {
            Some(i) => if s[i].evaluation_mechanism is Some {
                s[i].evaluation_mechanism
            } else {
                resolve_on_path(s, path, k - 1)
            },
            None => resolve_on_path(s, path, k - 1),
        }
    }
}

/// A well-formed registry keeps its chains in strictly increasing id order, with
/// distinct ids, and holds its root.
pub proof fn lemma_registry_ids_unique(r: &ChainRegistry)
    requires
        r.wf(),
    ensures
        ids_unique(r.spec_chains()),
        chains_in_id_order(r.spec_chains()),
        has_id(r.spec_chains(), r.spec_root_id()),
{
}

/// A well-formed registry holds exactly one root: a stored chain is a root exactly
/// when it is the registry's root chain, and the root's path is `[root id]`.
pub proof fn lemma_single_root(r: &ChainRegistry, i: int)
    requires
        r.wf(),
        0 <= i < r.spec_chains().len(),
    ensures
        r.spec_chains()[i].spec_is_root() <==> r.spec_chains()[i].id@ == r.spec_root_id(),
        r.spec_chains()[i].id@ == r.spec_root_id() ==> genesis_root(r.spec_chains()[i]),
{
    lemma_index_of_unique(r.spec_chains(), i);
}

/// With distinct ids, looking up the id stored at position `i` finds position `i`.
pub proof fn lemma_index_of_unique(s: Seq<NestedMeritChain>, i: int)
    requires
        ids_unique(s),
        0 <= i < s.len(),
    ensures
        index_of(s, s[i].id@) == Some(i),
{
    assert(has_id(s, s[i].id@));
}

/// Chains in strictly increasing id order (by text).
pub open spec fn chains_in_id_order(s: Seq<NestedMeritChain>) -> bool {
    forall|i: int, j: int| 0 <= i < j < s.len() ==> lex_lt(#[trigger] s[i].id@, #[trigger] s[j].id@)
}

/// Only the chain `root` may lack a parent.
pub open spec fn parentless_only_root(s: Seq<NestedMeritChain>, root: Seq<char>) -> bool {
    forall|i: int| 0 <= i < s.len() && (#[trigger] s[i]).parent_id is None ==> s[i].id@ == root
}

/// The genesis root: a root node whose path is `[id]`.
pub open spec fn genesis_root(c: NestedMeritChain) -> bool {
    &&& c.spec_is_root()
    &&& c.path@.len() == 1
    &&& c.path@[0]@ == c.id@
}

/// The registry: every chain in id order, plus the root id.
#[derive(Debug, Clone)]
pub struct ChainRegistry {
    chains: Vec<NestedMeritChain>,
    root_id: ChainId,
}

impl ChainRegistry {
    /// All registered chains, in id order.
    pub closed spec fn spec_chains(&self) -> Seq<NestedMeritChain> {
        self.chains@
    }

    /// The root's id.
    pub closed spec fn spec_root_id(&self) -> Seq<char> {
        self.root_id@
    }

    /// Well-formedness: the genesis root is registered and is the only chain without a
    /// parent, chains are stored in strictly increasing id order (so ids are unique),
    /// and `(parentId, domain)` keys are unique.
    pub closed spec fn wf(&self) -> bool {
        &&& has_id(self.chains@, self.root_id@)
        &&& genesis_root(self.chains@[index_of(self.chains@, self.root_id@).unwrap()])
        &&& parentless_only_root(self.chains@, self.root_id@)
        &&& chains_in_id_order(self.chains@)
        &&& ids_unique(self.chains@)
        &&& keys_unique(self.chains@)
    }

    /// Creates a registry holding `root`; a node that is not a genesis root (it has a
    /// parent, a non-zero depth, or a path other than `[id]`) is rejected with
    /// `MissingField`.
    pub fn with_root(root: NestedMeritChain) -> (r: GmcResult<Self>)
        ensures
            !genesis_root(root) <==> r == Err::<Self, GmcError>(GmcError::MissingField),
            r is Ok || !genesis_root(root),
            r matches Ok(reg) ==> {
                &&& reg.wf()
                &&& reg.spec_chains() == seq![root]
                &&& reg.spec_root_id() == root.id@
            },
    {
        if !root.is_root() || root.path.len() != 1 || root.path[0] != root.id {
            return Err(GmcError::MissingField);
        }
        let root_id = root.id.clone();
        let mut chains = Vec::new();
        chains.push(root);
        proof {
            assert(chains@[0].id@ == root_id@);
            lemma_index_of_unique(chains@, 0);
        }
        Ok(ChainRegistry { chains, root_id })
    }

    /// The root id.
    pub fn root_id(&self) -> (r: &ChainId)
        ensures
            r@ == self.spec_root_id(),
    {
        &self.root_id
    }

    /// The root chain.
    pub fn root(&self) -> (r: &NestedMeritChain)
        requires
            self.wf(),
        ensures
            *r == self.spec_chains()[index_of(self.spec_chains(), self.spec_root_id()).unwrap()],
            r.id@ == self.spec_root_id(),
            r.spec_is_root(),
    {
        match self.find(&self.root_id) {
            Some(i) => {
                proof {
                    lemma_index_of_unique(self.chains@, i as int);
                }
                &self.chains[i]
            },
            None => {
                proof {
                    assert(false);
                }
                &self.chains[0]
            },
        }
    }

    /// Number of registered chains (at least one: the root).
    pub fn len(&self) -> (n: usize)
        ensures
            n == self.spec_chains().len(),
    {
        self.chains.len()
    }

    /// `true` iff no chain is registered (never, for a well-formed registry).
    pub fn is_empty(&self) -> (b: bool)
        ensures
            b == (self.spec_chains().len() == 0),
    {
        self.chains.len() == 0
    }

    fn find(&self, id: &ChainId) -> (r: Option<usize>)
        ensures
            r is Some <==> has_id(self.chains@, id@),
            r matches Some(i) ==> i < self.chains@.len() && self.chains@[i as int].id@ == id@,
    {
        let mut i: usize = 0;
        while i < self.chains.len()
            invariant
                i <= self.chains@.len(),
                forall|j: int| 0 <= j < i ==> self.chains@[j].id@ != id@,
            decreases self.chains@.len() - i,
        {
            if self.chains[i].id == *id {
                return Some(i);
            }
            i = i + 1;
        }
        None
    }

    /// The chain with id `id`, if registered.
    pub fn get(&self, id: &ChainId) -> (r: Option<&NestedMeritChain>)
        requires
            self.wf(),
        ensures
            r is Some <==> has_id(self.spec_chains(), id@),
            r matches Some(c) ==> index_of(self.spec_chains(), id@) matches Some(i)
                && self.spec_chains()[i] == *c && c.id@ == id@,
    {
        match self.find(id) {
            Some(i) => {
                proof {
                    lemma_index_of_unique(self.chains@, i as int);
                }
                Some(&self.chains[i])
            },
            None => None,
        }
    }

    /// `true` iff a chain with id `id` is registered.
    pub fn contains(&self, id: &ChainId) -> (b: bool)
        ensures
            b == has_id(self.spec_chains(), id@),
    {
        self.find(id).is_some()
    }

    fn find_key(&self, parent_id: Option<&ChainId>, domain: &str) -> (r: Option<usize>)
        ensures
            r is Some <==> has_key(
                self.chains@,
                (
                    opt_ref_id(parent_id),
                    domain@,
                ),
            ),
            r matches Some(i) ==> i < self.chains@.len() && self.chains@[i as int].key() == (
                opt_ref_id(parent_id),
                domain@,
            ),
    {
        let ghost key = (
            opt_ref_id(parent_id),
            domain@,
        );
        let mut i: usize = 0;
        while i < self.chains.len()
            invariant
                i <= self.chains@.len(),
                key == (opt_ref_id(parent_id), domain@),
                forall|j: int| 0 <= j < i ==> self.chains@[j].key() != key,
            decreases self.chains@.len() - i,
        {
            let c = &self.chains[i];
            let same_parent = match parent_id {
                None => c.parent_id.is_none(),
                Some(p) => match &c.parent_id {
                    Some(q) => p.eq(q),
                    None => false,
                },
            };
            let same_domain = str_eq(c.domain.as_str(), domain);
            proof {
                match parent_id {
                    None => {
                        assert(key.0 is None);
                        assert(same_parent == (opt_id(c.parent_id) == key.0));
                    },
                    Some(p) => {
                        assert(key.0 == Some(p@));
                        match &c.parent_id {
                            Some(q) => {
                                assert(same_parent == (p@ == q@));
                                assert(same_parent == (opt_id(c.parent_id) == key.0));
                            },
                            None => {},
                        }
                    },
                }
            }
            if same_parent && same_domain {
                return Some(i);
            }
            i = i + 1;
        }
        None
    }

    /// The id of the chain registered under `(parent_id, domain)`, if any; pass
    /// `None` for the root slot.
    pub fn lookup_by_domain(&self, parent_id: Option<&ChainId>, domain: &str) -> (r: Option<
        &ChainId,
    >)
        requires
            self.wf(),
        ensures
            r is Some <==> has_key(
                self.spec_chains(),
                (
                    opt_ref_id(parent_id),
                    domain@,
                ),
            ),
            r matches Some(id) ==> exists|i: int|
                0 <= i < self.spec_chains().len() && self.spec_chains()[i].id == *id
                    && self.spec_chains()[i].key() == (
                    opt_ref_id(parent_id),
                    domain@,
                ),
    {
        match self.find_key(parent_id, domain) {
            Some(i) => Some(&self.chains[i].id),
            None => None,
        }
    }

    /// `true` iff the `(parent_id, domain)` combination is taken.
    pub fn contains_domain(&self, parent_id: Option<&ChainId>, domain: &str) -> (b: bool)
        ensures
            b == has_key(
                self.spec_chains(),
                (
                    opt_ref_id(parent_id),
                    domain@,
                ),
            ),
    {
        self.find_key(parent_id, domain).is_some()
    }

    /// Stores an already-built chain. A chain without a parent (the registry keeps its
    /// single root), or whose id or `(parentId, domain)` key is already taken, is
    /// rejected with `DomainConflict` and the registry is unchanged.
    pub fn insert(&mut self, chain: NestedMeritChain) -> (r: GmcResult<()>)
        requires
            old(self).wf(),
        ensures
            final(self).wf(),
            final(self).spec_root_id() == old(self).spec_root_id(),
            (chain.parent_id is None || has_id(old(self).spec_chains(), chain.id@) || has_key(
                old(self).spec_chains(),
                chain.key(),
            )) <==> r == Err::<(), GmcError>(GmcError::DomainConflict),
            r is Ok || r == Err::<(), GmcError>(GmcError::DomainConflict),
            r is Ok ==> exists|p: int|
                0 <= p <= old(self).spec_chains().len() && final(self).spec_chains() == old(
                    self,
                ).spec_chains().insert(p, chain),
            r is Err ==> final(self).spec_chains() == old(self).spec_chains(),
    {
        if chain.parent_id.is_none() {
            return Err(GmcError::DomainConflict);
        }
        let conflict_id = self.find(&chain.id).is_some();
        let conflict_key = match &chain.parent_id {
            Some(p) => self.find_key(Some(p), chain.domain.as_str()).is_some(),
            None => self.find_key(None, chain.domain.as_str()).is_some(),
        };
        if conflict_id || conflict_key {
            return Err(GmcError::DomainConflict);
        }
        let ghost old_chains = self.chains@;
        let ghost cid = chain.id@;
        let mut p: usize = 0;
        while p < self.chains.len() && str_lex_lt(self.chains[p].id.as_str(), chain.id.as_str())
            invariant
                p <= old_chains.len(),
                old_chains == self.chains@,
                cid == chain.id@,
                chains_in_id_order(old_chains),
                forall|j: int| 0 <= j < p ==> lex_lt(#[trigger] old_chains[j].id@, cid),
            decreases old_chains.len() - p,
        {
            p = p + 1;
        }
        proof {
            if p < old_chains.len() {
                assert(old_chains[p as int].id@ != cid);
                lemma_lex_total(old_chains[p as int].id@, cid);
            }
        }
        let ghost ch = chain;
        self.chains.insert(p, chain);
        proof {
            let s = self.chains@;
            assert(s == old_chains.insert(p as int, ch));
            assert forall|a: int, b: int| 0 <= a < b < s.len() implies lex_lt(
                #[trigger] s[a].id@,
                #[trigger] s[b].id@,
            ) by {
                if b < p {
                } else if b == p {
                } else if a < p {
                    if b - 1 > p {
                        lemma_lex_transitive(cid, old_chains[p as int].id@, old_chains[b - 1].id@);
                    }
                    lemma_lex_transitive(old_chains[a].id@, cid, s[b].id@);
                } else if a == p {
                    if b - 1 > p {
                        lemma_lex_transitive(cid, old_chains[p as int].id@, old_chains[b - 1].id@);
                    }
                } else {
                }
            }
            assert forall|i: int, j: int|
                0 <= i < s.len() && 0 <= j < s.len() && i != j implies s[i].id@ != s[j].id@ by {
                lemma_lex_irreflexive(s[i].id@);
                if i < j {
                    assert(lex_lt(s[i].id@, s[j].id@));
                } else {
                    assert(lex_lt(s[j].id@, s[i].id@));
                }
            }
            assert forall|i: int, j: int|
                0 <= i < s.len() && 0 <= j < s.len() && i != j implies s[i].key() != s[j].key() by {
                let oi = if i < p { i } else { i - 1 };
                let oj = if j < p { j } else { j - 1 };
                if i != p && j != p {
                    assert(s[i] == old_chains[oi]);
                    assert(s[j] == old_chains[oj]);
                } else if i == p {
                    assert(s[j] == old_chains[oj]);
                } else {
                    assert(s[i] == old_chains[oi]);
                }
            }
            let ri = index_of(old_chains, self.root_id@).unwrap();
            lemma_index_of_unique(old_chains, ri);
            let nri = if ri < p { ri } else { ri + 1 };
            assert(s[nri] == old_chains[ri]);
            lemma_index_of_unique(s, nri);
            assert(self.spec_chains() == old(self).spec_chains().insert(p as int, ch));
        }
        Ok(())
    }

    /// Cycle guard: `true` when attaching `proposed_id` under `target_parent` would make
    /// a chain its own ancestor.
    pub fn detect_cycle(&self, target_parent: &ChainId, proposed_id: &ChainId) -> (b: bool)
        requires
            self.wf(),
        ensures
            b == forms_cycle(self.spec_chains(), target_parent@, proposed_id@),
    {
        if *target_parent == *proposed_id {
            return true;
        }
        if !self.contains(proposed_id) {
            return false;
        }
        let ghost s = self.chains@;
        let mut current = target_parent.clone();
        let mut fuel: usize = self.chains.len();
        loop
            invariant
                self.wf(),
                s == self.chains@,
                has_id(s, proposed_id@),
                fuel <= s.len(),
                reaches(s, target_parent@, proposed_id@, s.len()) == reaches(
                    s,
                    current@,
                    proposed_id@,
                    fuel as nat,
                ),
            decreases fuel,
        {
            if current == *proposed_id {
                return true;
            }
            if fuel == 0 {
                return false;
            }
            match self.get(&current) {
                Some(ch) => match &ch.parent_id {
                    Some(p) => {
                        current = p.clone();
                        fuel = fuel - 1;
                    },
                    None => {
                        return false;
                    },
                },
                None => {
                    return false;
                },
            }
        }
    }

    /// Derives a new chain under an existing parent. The checks run in order and the
    /// first failing one decides the error (see [`derive_error`]); a rejected request
    /// leaves the registry unchanged. On success the chain is stored with
    /// `depth = parent.depth + 1` and `path = parent.path + [proposed_id]`, and its id
    /// is returned.
    pub fn derive(&mut self, req: DeriveRequest) -> (r: GmcResult<ChainId>)
        requires
            old(self).wf(),
        ensures
            final(self).wf(),
            final(self).spec_root_id() == old(self).spec_root_id(),
            derive_outcome(old(self).spec_chains(), final(self).spec_chains(), req, r),
    {
        if req.parent_id.is_empty() || str_len(req.domain.as_str()) == 0 {
            return Err(GmcError::MissingField);
        }
        let pi = match self.find(&req.parent_id) {
            Some(i) => i,
            None => {
                return Err(GmcError::ParentNotFound);
            },
        };
        proof {
            lemma_index_of_unique(self.chains@, pi as int);
        }
        if self.detect_cycle(&req.parent_id, &req.proposed_id) {
            return Err(GmcError::CycleConflict);
        }
        let parent_depth = self.chains[pi].depth;
        if parent_depth >= MAX_DEPTH {
            return Err(GmcError::DepthExceeded);
        }
        if self.contains_domain(Some(&req.parent_id), req.domain.as_str()) {
            return Err(GmcError::DomainConflict);
        }
        let new_depth = parent_depth + 1;
        let new_path = copy_path(self.chains[pi].path.as_slice(), &req.proposed_id);
        let proposed = req.proposed_id.clone();
        let chain = match NestedMeritChain::new(
            req.proposed_id,
            req.parent_id,
            req.domain.as_str(),
            new_depth,
            new_path,
            req.stewards,
            req.origin_type,
            req.created_at,
        ) {
            Ok(c) => c,
            Err(e) => {
                return Err(e);
            },
        };
        match self.insert(chain) {
            Ok(()) => {
                proof {
                    let p = choose|p: int|
                        0 <= p <= old(self).spec_chains().len() && self.spec_chains() == old(
                            self,
                        ).spec_chains().insert(p, chain);
                    assert(self.spec_chains()[p] == chain);
                    assert(derived_as(
                        self.spec_chains()[p],
                        old(self).spec_chains()[index_of(old(self).spec_chains(), req.parent_id@).unwrap()],
                        req,
                    ));
                }
                Ok(proposed)
            },
            Err(e) => Err(e),
        }
    }

    /// All registered chains, in id order.
    pub fn iter(&self) -> (r: std::slice::Iter<'_, NestedMeritChain>)
        ensures
            vstd::std_specs::slice::into_iter_elts(r) == self.spec_chains(),
    {
        broadcast use vstd::std_specs::slice::axiom_spec_slice_iter;

        let it = self.chains.as_slice().iter();
        proof {
            assert(vstd::std_specs::slice::into_iter_elts(it) =~= self.chains@);
        }
        it
    }

    /// The stored derivation path of the chain `id`, if registered.
    pub fn get_path(&self, id: &ChainId) -> (r: Option<&[ChainId]>)
        requires
            self.wf(),
        ensures
            r is Some <==> has_id(self.spec_chains(), id@),
            r matches Some(p) ==> p@ == self.spec_chains()[index_of(
                self.spec_chains(),
                id@,
            ).unwrap()].path@,
    {
        match self.get(id) {
            Some(c) => Some(c.path.as_slice()),
            None => None,
        }
    }

    /// Sets the lifecycle state of the chain `id`; an unknown id is rejected with
    /// `ParentNotFound` and nothing changes.
    pub fn set_lifecycle(&mut self, id: &ChainId, state: Lifecycle) -> (r: GmcResult<()>)
        requires
            old(self).wf(),
        ensures
            final(self).wf(),
            final(self).spec_root_id() == old(self).spec_root_id(),
            !has_id(old(self).spec_chains(), id@) <==> r == Err::<(), GmcError>(
                GmcError::ParentNotFound,
            ),
            r is Ok || r is Err && !has_id(old(self).spec_chains(), id@),
            r is Err ==> final(self).spec_chains() == old(self).spec_chains(),
            r is Ok ==> {
                let i = index_of(old(self).spec_chains(), id@).unwrap();
                final(self).spec_chains() == old(self).spec_chains().update(
                    i,
                    NestedMeritChain { lifecycle: state, ..old(self).spec_chains()[i] },
                )
            },
    {
        match self.find(id) {
            Some(i) => {
                proof {
                    lemma_index_of_unique(self.chains@, i as int);
                }
                let ghost old_chains = self.chains@;
                self.chains[i].lifecycle = state;
                proof {
                    let s = self.chains@;
                    assert(s =~= old_chains.update(
                        i as int,
                        NestedMeritChain { lifecycle: state, ..old_chains[i as int] },
                    ));
                    assert forall|a: int, b: int|
                        0 <= a < s.len() && 0 <= b < s.len() && a != b implies s[a].key()
                        != s[b].key() by {
                        assert(s[a].key() == old_chains[a].key());
                        assert(s[b].key() == old_chains[b].key());
                    }
                    assert forall|a: int, b: int|
                        0 <= a < s.len() && 0 <= b < s.len() && a != b implies s[a].id@
                        != s[b].id@ by {
                        assert(s[a].id == old_chains[a].id);
                        assert(s[b].id == old_chains[b].id);
                    }
                    assert forall|a: int, b: int| 0 <= a < b < s.len() implies lex_lt(
                        #[trigger] s[a].id@,
                        #[trigger] s[b].id@,
                    ) by {
                        assert(s[a].id == old_chains[a].id);
                        assert(s[b].id == old_chains[b].id);
                    }
                    let ri = index_of(old_chains, self.root_id@).unwrap();
                    lemma_index_of_unique(old_chains, ri);
                    assert(s[ri].id == old_chains[ri].id);
                    lemma_index_of_unique(s, ri);
                }
                Ok(())
            },
            None => Err(GmcError::ParentNotFound),
        }
    }

    /// The effective evaluation mechanism of the chain `id`: its own, or else the one
    /// of the nearest ancestor on its path that defines one; `None` when no chain on
    /// the path defines one or `id` is unknown.
    pub fn resolve_evaluation_mechanism(&self, id: &ChainId) -> (r: Option<
        &EvaluationMechanismRef,
    >)
        requires
            self.wf(),
        ensures
            !has_id(self.spec_chains(), id@) ==> r is None,
            has_id(self.spec_chains(), id@) ==> {
                let path = self.spec_chains()[index_of(self.spec_chains(), id@).unwrap()].path@;
                match r {
                    Some(m) => resolve_on_path(self.spec_chains(), path, path.len() as int) == Some(
                        *m,
                    ),
                    None => resolve_on_path(self.spec_chains(), path, path.len() as int) is None,
                }
            },
    {
        let path = match self.get_path(id) {
            Some(p) => p,
            None => {
                return None;
            },
        };
        let ghost s = self.chains@;
        let mut k: usize = path.len();
        while k > 0
            invariant
                self.wf(),
                s == self.chains@,
                has_id(s, id@),
                path@ == s[index_of(s, id@).unwrap()].path@,
                k <= path@.len(),
                resolve_on_path(s, path@, path@.len() as int) == resolve_on_path(
                    s,
                    path@,
                    k as int,
                ),
            decreases k,
        {
            match self.get(&path[k - 1]) {
                Some(ch) => match &ch.evaluation_mechanism {
                    Some(m) => {
                        return Some(m);
                    },
                    None => {},
                },
                None => {},
            }
            k = k - 1;
        }
        None
    }
}

fn copy_path(path: &[ChainId], last: &ChainId) -> (r: Vec<ChainId>)
    ensures
        r@ == path@.push(*last),
{
    let mut out: Vec<ChainId> = Vec::new();
    let mut i: usize = 0;
    while i < path.len()
        invariant
            i <= path@.len(),
            out@ == path@.take(i as int),
        decreases path@.len() - i,
    {
        out.push(path[i].clone());
        proof {
            assert(path@.take(i as int + 1) =~= path@.take(i as int).push(path@[i as int]));
        }
        i = i + 1;
    }
    out.push(last.clone());
    proof {
        assert(path@.take(path@.len() as int) =~= path@);
    }
    out
}

} // verus!
