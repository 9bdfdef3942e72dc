use gmc_core::error::GmcError;
use gmc_core::registry::ChainConfigRef;
use gmc_core::registry::ChainRegistry;
use gmc_core::registry::DeriveRequest;
use gmc_core::registry::EvaluationMechanismRef;
use gmc_core::registry::Lifecycle;
use gmc_core::registry::MAX_DEPTH;
use gmc_core::registry::NestedMeritChain;
use gmc_core::registry::OriginType;
use gmc_core::types::ChainId;
use gmc_core::types::FayID;
use gmc_core::types::Timestamp;

/// Builds a single-steward `GMC_Base` registry for use across tests.
fn registry_with_root() -> ChainRegistry {
    let root = NestedMeritChain::root(
        ChainId::new("gmc-base"),
        "root",
        vec![FayID::new("founder")],
        Timestamp::from_secs(1_000),
    );
    ChainRegistry::with_root(root).expect("root is a valid depth-0 root")
}

/// Convenience: build a depth-1 child of the given parent with one steward.
fn child_of(
    parent: &NestedMeritChain,
    id: &str,
    domain: &str,
) -> NestedMeritChain {
    let mut path = parent.path().to_vec();
    path.push(ChainId::new(id));
    NestedMeritChain::new(
        ChainId::new(id),
        parent.id().clone(),
        domain,
        parent.depth() + 1,
        path,
        vec![FayID::new("steward-1")],
        OriginType::StewardInitiated,
        Timestamp::from_secs(2_000),
    )
    .expect("child has at least one steward")
}

// --- GMC_Base root -----------------------------------

#[test]
fn gmc_base_root_is_at_depth_zero() {
    let registry = registry_with_root();
    let root = registry.root();
    assert!(root.is_root());
    assert_eq!(root.depth(), 0);
    assert_eq!(root.parent_id(), None);
    assert_eq!(root.origin_type(), None);
    // path starts and ends at the root itself, len == depth + 1.
    assert_eq!(root.path(), &[ChainId::new("gmc-base")]);
    assert_eq!(root.path().len() as u32, root.depth() + 1);
    assert_eq!(registry.root_id(), &ChainId::new("gmc-base"));
    assert_eq!(registry.len(), 1);
    assert!(!registry.is_empty());
}

#[test]
fn with_root_rejects_a_non_root_node() {
    // A node that has a parent / non-zero depth is not a valid registry root.
    let non_root = child_of(
        &NestedMeritChain::root(
            ChainId::new("gmc-base"),
            "root",
            vec![FayID::new("founder")],
            Timestamp::from_secs(1),
        ),
        "academic",
        "academia",
    );
    assert_eq!(ChainRegistry::with_root(non_root).unwrap_err(), GmcError::MissingField);
}

// --- Chain metadata recorded -------------------------

#[test]
fn derived_chain_records_domain_parent_and_creation_time() {
    let mut registry = registry_with_root();
    let root_id = registry.root_id().clone();
    let child = child_of(registry.root(), "academic", "academia");
    registry.insert(child).expect("first insert succeeds");

    let stored = registry.get(&ChainId::new("academic")).expect("chain stored");
    assert_eq!(stored.domain(), "academia");
    assert_eq!(stored.parent_id(), Some(&root_id));
    assert_eq!(stored.created_at(), Timestamp::from_secs(2_000));
    assert_eq!(stored.depth(), 1);
    assert_eq!(stored.lifecycle(), Lifecycle::Active);
    assert_eq!(stored.origin_type(), Some(OriginType::StewardInitiated));
    // path: GMC_Base -> academic, len == depth + 1.
    assert_eq!(
        stored.path(),
        &[ChainId::new("gmc-base"), ChainId::new("academic")]
    );
    assert_eq!(stored.path().len() as u32, stored.depth() + 1);
}

// --- (parent, domain) uniqueness index ---------------------------------

#[test]
fn lookup_by_parent_and_domain_finds_the_chain() {
    let mut registry = registry_with_root();
    let root_id = registry.root_id().clone();
    let child = child_of(registry.root(), "academic", "academia");
    registry.insert(child).unwrap();

    assert_eq!(
        registry.lookup_by_domain(Some(&root_id), "academia"),
        Some(&ChainId::new("academic"))
    );
    assert!(registry.contains_domain(Some(&root_id), "academia"));
    // A different domain under the same parent is not indexed.
    assert!(!registry.contains_domain(Some(&root_id), "charity"));
    // The same domain string under a *different* parent is a distinct key.
    assert!(!registry.contains_domain(Some(&ChainId::new("academic")), "academia"));
}

#[test]
fn duplicate_parent_domain_is_rejected_and_registry_unchanged() {
    let mut registry = registry_with_root();
    let first = child_of(registry.root(), "academic", "academia");
    registry.insert(first).unwrap();
    let len_before = registry.len();

    // Same (parent, domain) but a different id must be rejected.
    let duplicate = child_of(registry.root(), "academic-2", "academia");
    assert_eq!(registry.insert(duplicate), Err(GmcError::DomainConflict));

    // Registry is unchanged: the rejected id never landed, count is stable.
    let root_id = registry.root_id().clone();
    assert_eq!(registry.len(), len_before);
    assert!(!registry.contains(&ChainId::new("academic-2")));
    // The original chain is still the one indexed under (root, "academia").
    assert_eq!(
        registry.lookup_by_domain(Some(&root_id), "academia"),
        Some(&ChainId::new("academic"))
    );
}

#[test]
fn re_inserting_an_existing_id_is_rejected() {
    let mut registry = registry_with_root();
    let child = child_of(registry.root(), "academic", "academia");
    registry.insert(child.clone()).unwrap();
    let len_before = registry.len();

    // Re-inserting the same id (even with a fresh domain) is a conflict, and the
    // registry must stay consistent.
    let mut path = registry.root().path().to_vec();
    path.push(ChainId::new("academic"));
    let same_id_other_domain = NestedMeritChain::new(
        ChainId::new("academic"),
        registry.root_id().clone(),
        "different-domain",
        1,
        path,
        vec![FayID::new("steward-x")],
        OriginType::VoteInitiated,
        Timestamp::from_secs(3_000),
    )
    .unwrap();
    assert_eq!(
        registry.insert(same_id_other_domain),
        Err(GmcError::DomainConflict)
    );
    let root_id = registry.root_id().clone();
    assert_eq!(registry.len(), len_before);
    // The stale domain was never indexed.
    assert!(!registry.contains_domain(Some(&root_id), "different-domain"));
}

// --- At least one Steward ----------------------------

#[test]
fn derived_chain_requires_at_least_one_steward() {
    let registry = registry_with_root();
    let mut path = registry.root().path().to_vec();
    path.push(ChainId::new("no-steward"));
    let result = NestedMeritChain::new(
        ChainId::new("no-steward"),
        registry.root_id().clone(),
        "orphan",
        1,
        path,
        Vec::new(), // no stewards -> rejected
        OriginType::StewardInitiated,
        Timestamp::from_secs(2_000),
    );
    assert_eq!(result, Err(GmcError::MissingField));
}

#[test]
fn derived_chain_with_stewards_is_constructed() {
    let registry = registry_with_root();
    let child = child_of(registry.root(), "academic", "academia");
    assert!(!child.stewards().is_empty());
    assert_eq!(child.stewards(), &[FayID::new("steward-1")]);
}

// --- placeholders & builders -------------------------------------------

#[test]
fn evaluation_mechanism_and_config_default_to_inherit() {
    let registry = registry_with_root();
    let child = child_of(registry.root(), "academic", "academia");
    // None == "inherit from nearest defining ancestor".
    assert_eq!(child.evaluation_mechanism(), None);
    assert_eq!(child.config(), None);

    let configured = child
        .with_evaluation_mechanism(EvaluationMechanismRef::placeholder())
        .with_config(ChainConfigRef::placeholder());
    assert_eq!(
        configured.evaluation_mechanism(),
        Some(&EvaluationMechanismRef::placeholder())
    );
    assert_eq!(configured.config(), Some(&ChainConfigRef::placeholder()));
}

#[test]
fn iter_yields_all_chains_including_root() {
    let mut registry = registry_with_root();
    registry
        .insert(child_of(registry.root(), "academic", "academia"))
        .unwrap();
    registry
        .insert(child_of(registry.root(), "charity", "charity"))
        .unwrap();

    let ids: Vec<_> = registry.iter().map(|c| c.id().clone()).collect();
    assert_eq!(ids.len(), 3);
    assert!(ids.contains(&ChainId::new("gmc-base")));
    assert!(ids.contains(&ChainId::new("academic")));
    assert!(ids.contains(&ChainId::new("charity")));
}

// --- derive: ordered validation algorithm -------------------

/// Convenience: a single-steward derive request under `parent_id`.
fn derive_req(proposed: &str, parent: &ChainId, domain: &str) -> DeriveRequest {
    DeriveRequest::new(
        ChainId::new(proposed),
        parent.clone(),
        domain,
        vec![FayID::new("steward-1")],
        OriginType::StewardInitiated,
        Timestamp::from_secs(5_000),
    )
}

#[test]
fn derive_success_records_depth_path_and_stores_chain() {
    let mut registry = registry_with_root();
    let root_id = registry.root_id().clone();

    let id = registry
        .derive(derive_req("academic", &root_id, "academia"))
        .expect("valid derive succeeds");
    assert_eq!(id, ChainId::new("academic"));

    // The derivation relationship is recorded: the new chain is
    // stored with depth = parent.depth + 1 and path = parent.path + [new].
    let stored = registry.get(&ChainId::new("academic")).expect("chain stored");
    assert_eq!(stored.depth(), 1);
    assert_eq!(stored.parent_id(), Some(&root_id));
    assert_eq!(stored.domain(), "academia");
    assert_eq!(
        stored.path(),
        &[ChainId::new("gmc-base"), ChainId::new("academic")]
    );
    assert_eq!(stored.path().len() as u32, stored.depth() + 1);
    assert_eq!(registry.len(), 2);

    // A deeper derive composes the path correctly.
    let sub_id = registry
        .derive(derive_req("ai-research", &ChainId::new("academic"), "ai"))
        .expect("nested derive succeeds");
    let sub = registry.get(&sub_id).unwrap();
    assert_eq!(sub.depth(), 2);
    assert_eq!(
        sub.path(),
        &[
            ChainId::new("gmc-base"),
            ChainId::new("academic"),
            ChainId::new("ai-research")
        ]
    );
}

#[test]
fn derive_missing_parent_id_or_domain_is_rejected_and_registry_unchanged() {
    let mut registry = registry_with_root();
    let root_id = registry.root_id().clone();
    let len_before = registry.len();

    // Empty parent id -> MissingField.
    let empty_parent = DeriveRequest::new(
        ChainId::new("x"),
        ChainId::new(""),
        "domain-x",
        vec![FayID::new("s")],
        OriginType::StewardInitiated,
        Timestamp::from_secs(5_000),
    );
    assert_eq!(registry.derive(empty_parent), Err(GmcError::MissingField));

    // Empty domain -> MissingField.
    let empty_domain = derive_req("y", &root_id, "");
    assert_eq!(registry.derive(empty_domain), Err(GmcError::MissingField));

    // Nothing was written.
    assert_eq!(registry.len(), len_before);
    assert!(!registry.contains(&ChainId::new("x")));
    assert!(!registry.contains(&ChainId::new("y")));
}

#[test]
fn derive_under_unknown_parent_is_rejected_and_registry_unchanged() {
    let mut registry = registry_with_root();
    let len_before = registry.len();

    // Parent not in the registry -> ParentNotFound.
    let orphan = derive_req("orphan", &ChainId::new("ghost-parent"), "domain");
    assert_eq!(registry.derive(orphan), Err(GmcError::ParentNotFound));

    assert_eq!(registry.len(), len_before);
    assert!(!registry.contains(&ChainId::new("orphan")));
}

#[test]
fn derive_at_depth_bound_accepts_16_and_rejects_17() {
    let mut registry = registry_with_root();
    let mut parent = registry.root_id().clone();

    // Derive a straight chain down to depth == MAX_DEPTH (16). Root is depth 0,
    // so 16 successful derives land the deepest chain at depth 16.
    for depth in 1..=MAX_DEPTH {
        let id = format!("level-{depth}");
        let domain = format!("domain-{depth}");
        let new_id = registry
            .derive(derive_req(&id, &parent, &domain))
            .unwrap_or_else(|e| panic!("derive at depth {depth:?} should succeed: {e:?}"));
        assert_eq!(registry.get(&new_id).unwrap().depth(), depth);
        parent = new_id;
    }
    let len_before = registry.len();
    assert_eq!(registry.get(&parent).unwrap().depth(), MAX_DEPTH);

    // Deriving a 17th level (new_depth = 17 > 16) is rejected,
    // and the registry is unchanged.
    let too_deep = derive_req("level-17", &parent, "domain-17");
    assert_eq!(registry.derive(too_deep), Err(GmcError::DepthExceeded));
    assert_eq!(registry.len(), len_before);
    assert!(!registry.contains(&ChainId::new("level-17")));
}

#[test]
fn derive_duplicate_parent_domain_is_rejected_and_registry_unchanged() {
    let mut registry = registry_with_root();
    let root_id = registry.root_id().clone();
    registry
        .derive(derive_req("academic", &root_id, "academia"))
        .unwrap();
    let len_before = registry.len();

    // Same (parent, domain), different id -> DomainConflict.
    let duplicate = derive_req("academic-2", &root_id, "academia");
    assert_eq!(registry.derive(duplicate), Err(GmcError::DomainConflict));

    // The existing chain is preserved and the rejected id never landed.
    assert_eq!(registry.len(), len_before);
    assert!(!registry.contains(&ChainId::new("academic-2")));
    assert_eq!(
        registry.lookup_by_domain(Some(&root_id), "academia"),
        Some(&ChainId::new("academic"))
    );
}

#[test]
fn derive_without_steward_is_rejected_and_registry_unchanged() {
    let mut registry = registry_with_root();
    let root_id = registry.root_id().clone();
    let len_before = registry.len();

    // A derived chain must carry at least one Steward; the
    // ordered checks pass but NestedMeritChain::new rejects the empty set, and the
    // registry stays unchanged.
    let no_steward = DeriveRequest::new(
        ChainId::new("no-steward"),
        root_id.clone(),
        "lonely",
        Vec::new(),
        OriginType::StewardInitiated,
        Timestamp::from_secs(5_000),
    );
    assert_eq!(registry.derive(no_steward), Err(GmcError::MissingField));
    assert_eq!(registry.len(), len_before);
    assert!(!registry.contains(&ChainId::new("no-steward")));
    assert!(!registry.contains_domain(Some(&root_id), "lonely"));
}

#[test]
fn derive_rejects_self_parent_cycle_and_registry_unchanged() {
    let mut registry = registry_with_root();
    let root_id = registry.root_id().clone();
    registry
        .derive(derive_req("academic", &root_id, "academia"))
        .unwrap();
    let len_before = registry.len();

    // A request whose proposed_id equals its own parent forms a trivial cycle
    //.
    let self_parent = derive_req("academic", &ChainId::new("academic"), "other");
    assert_eq!(registry.derive(self_parent), Err(GmcError::CycleConflict));
    assert_eq!(registry.len(), len_before);
}

#[test]
fn derive_rejects_reparent_into_own_subtree_and_registry_unchanged() {
    // Build root -> academic -> ai-research, then attempt to "re-parent" academic
    // under its own descendant ai-research. Honouring it would make academic its
    // own ancestor, so detect_cycle must reject it and leave the
    // registry unchanged.
    let mut registry = registry_with_root();
    let root_id = registry.root_id().clone();
    registry
        .derive(derive_req("academic", &root_id, "academia"))
        .unwrap();
    registry
        .derive(derive_req("ai-research", &ChainId::new("academic"), "ai"))
        .unwrap();
    let len_before = registry.len();
    let academic_before = registry.get(&ChainId::new("academic")).cloned().unwrap();

    let reparent = derive_req("academic", &ChainId::new("ai-research"), "reparented");
    assert_eq!(registry.derive(reparent), Err(GmcError::CycleConflict));

    // Registry unchanged: count stable and the original "academic" record intact.
    assert_eq!(registry.len(), len_before);
    assert_eq!(
        registry.get(&ChainId::new("academic")).unwrap(),
        &academic_before
    );
    assert!(!registry.contains_domain(Some(&ChainId::new("ai-research")), "reparented"));
}

#[test]
fn detect_cycle_allows_fresh_leaf_under_descendant_position() {
    // A brand-new (not-yet-registered) proposed_id can never form a cycle, even
    // when derived under a deep descendant.
    let mut registry = registry_with_root();
    let root_id = registry.root_id().clone();
    registry
        .derive(derive_req("academic", &root_id, "academia"))
        .unwrap();
    // proposed_id "fresh" is new, parent is the existing "academic": no cycle.
    assert!(!registry.detect_cycle(&ChainId::new("academic"), &ChainId::new("fresh")));
    // And the corresponding derive succeeds.
    assert!(registry
        .derive(derive_req("fresh", &ChainId::new("academic"), "fresh-domain"))
        .is_ok());
}

// --- get_path / set_lifecycle / resolve_evaluation_mechanism ---

#[test]
fn get_path_returns_ordered_root_to_chain_path() {
    // Build root -> academic -> ai-research and check getPath.
    let mut registry = registry_with_root();
    let root_id = registry.root_id().clone();
    registry
        .derive(derive_req("academic", &root_id, "academia"))
        .unwrap();
    registry
        .derive(derive_req("ai-research", &ChainId::new("academic"), "ai"))
        .unwrap();

    // Root path is just [root]; len == depth + 1.
    assert_eq!(registry.get_path(&root_id), Some(&[root_id.clone()][..]));

    // A depth-2 chain's path is ordered GMC_Base -> academic -> ai-research.
    let sub = registry.get(&ChainId::new("ai-research")).unwrap();
    let path = registry
        .get_path(&ChainId::new("ai-research"))
        .expect("path for a registered chain");
    assert_eq!(
        path,
        &[
            ChainId::new("gmc-base"),
            ChainId::new("academic"),
            ChainId::new("ai-research"),
        ]
    );
    // First element is the root, last is the chain itself, len == depth + 1.
    assert_eq!(path.first(), Some(&root_id));
    assert_eq!(path.last(), Some(&ChainId::new("ai-research")));
    assert_eq!(path.len() as u32, sub.depth() + 1);

    // Unknown id -> None.
    assert_eq!(registry.get_path(&ChainId::new("ghost")), None);
}

#[test]
fn set_lifecycle_changes_state_and_errors_on_unknown_id() {
    let mut registry = registry_with_root();
    let root_id = registry.root_id().clone();
    registry
        .derive(derive_req("academic", &root_id, "academia"))
        .unwrap();
    let academic = ChainId::new("academic");

    // Chains are born Active.
    assert_eq!(registry.get(&academic).unwrap().lifecycle(), Lifecycle::Active);

    // Active -> Suspended -> Archived all take effect.
    registry
        .set_lifecycle(&academic, Lifecycle::Suspended)
        .expect("known chain lifecycle update succeeds");
    assert_eq!(
        registry.get(&academic).unwrap().lifecycle(),
        Lifecycle::Suspended
    );
    registry
        .set_lifecycle(&academic, Lifecycle::Archived)
        .expect("known chain lifecycle update succeeds");
    assert_eq!(
        registry.get(&academic).unwrap().lifecycle(),
        Lifecycle::Archived
    );

    // Unknown id -> error, and nothing else changes.
    let len_before = registry.len();
    assert_eq!(
        registry.set_lifecycle(&ChainId::new("ghost"), Lifecycle::Suspended),
        Err(GmcError::ParentNotFound)
    );
    assert_eq!(registry.len(), len_before);
    assert_eq!(
        registry.get(&academic).unwrap().lifecycle(),
        Lifecycle::Archived
    );
}

/// Convenience: a single-steward child of `parent` carrying its own placeholder
/// evaluation mechanism (i.e. a chain that *defines* a mechanism).
fn child_with_mechanism(
    parent: &NestedMeritChain,
    id: &str,
    domain: &str,
) -> NestedMeritChain {
    child_of(parent, id, domain).with_evaluation_mechanism(EvaluationMechanismRef::placeholder())
}

#[test]
fn resolve_evaluation_mechanism_returns_own_when_defined() {
    // A chain that defines its own mechanism resolves to that mechanism directly,
    // not to any ancestor's.
    let mut registry = registry_with_root();
    let own = child_with_mechanism(registry.root(), "academic", "academia");
    registry.insert(own).unwrap();

    let resolved = registry
        .resolve_evaluation_mechanism(&ChainId::new("academic"))
        .expect("a chain defining its own mechanism resolves to it");
    let own_ref = registry
        .get(&ChainId::new("academic"))
        .unwrap()
        .evaluation_mechanism()
        .unwrap();
    // It is exactly this chain's own stored mechanism (same storage location).
    assert!(std::ptr::eq(resolved, own_ref));
}

#[test]
fn resolve_evaluation_mechanism_inherits_nearest_defining_ancestor() {
    // Build root(none) -> a(mech) -> b(mech) -> c(none). Resolving `c` must inherit
    // the NEAREST defining ancestor `b`, not the farther `a`.
    let mut registry = registry_with_root();
    let a = child_with_mechanism(registry.root(), "a", "a-domain");
    registry.insert(a).unwrap();
    let b = child_with_mechanism(registry.get(&ChainId::new("a")).unwrap(), "b", "b-domain");
    registry.insert(b).unwrap();
    // `c` defines no mechanism of its own (plain child).
    let c = child_of(registry.get(&ChainId::new("b")).unwrap(), "c", "c-domain");
    registry.insert(c).unwrap();

    let resolved = registry
        .resolve_evaluation_mechanism(&ChainId::new("c"))
        .expect("c inherits from the nearest defining ancestor");
    let b_ref = registry
        .get(&ChainId::new("b"))
        .unwrap()
        .evaluation_mechanism()
        .unwrap();
    let a_ref = registry
        .get(&ChainId::new("a"))
        .unwrap()
        .evaluation_mechanism()
        .unwrap();
    // Nearest-first: resolves to `b`'s mechanism, not `a`'s (placeholders compare
    // equal by value, so identity via ptr::eq is what proves "nearest").
    assert!(std::ptr::eq(resolved, b_ref));
    assert!(!std::ptr::eq(resolved, a_ref));

    // `b` itself, defining its own mechanism, resolves to its own (not `a`'s).
    let resolved_b = registry
        .resolve_evaluation_mechanism(&ChainId::new("b"))
        .unwrap();
    assert!(std::ptr::eq(resolved_b, b_ref));
}

#[test]
fn resolve_evaluation_mechanism_is_none_when_no_chain_on_path_defines_one() {
    // No chain along root -> academic -> ai-research defines a mechanism.
    let mut registry = registry_with_root();
    let root_id = registry.root_id().clone();
    registry
        .derive(derive_req("academic", &root_id, "academia"))
        .unwrap();
    registry
        .derive(derive_req("ai-research", &ChainId::new("academic"), "ai"))
        .unwrap();

    assert_eq!(
        registry.resolve_evaluation_mechanism(&ChainId::new("ai-research")),
        None
    );
    assert_eq!(registry.resolve_evaluation_mechanism(&root_id), None);
    // Unknown id resolves to None as well.
    assert_eq!(
        registry.resolve_evaluation_mechanism(&ChainId::new("ghost")),
        None
    );
}
