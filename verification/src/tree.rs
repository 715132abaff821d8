//! The forest and the steps that keep it in line with the cluster: taking an
//! object out wherever it stands, and putting it where the rules say it
//! belongs.
//!
//! The roots of the forest are the namespaces. Under a root stand routes,
//! services and pods; under a route the services it refers to; under a
//! service the pods it selects.

use crate::node::{HierarchyNode, NodeView, ResourceKind, lemma_relatives_view, text_or_empty};
use crate::objects::{HTTPRoute, Namespace, ObjectMeta, ObjectMetaView, Pod, Service};
use crate::text::{opt_as_str, opt_str_eq, str_eq};
use vstd::prelude::*;

verus! {

// ---------------------------------------------------------------------------
// Identity

/// What identifies an object: its kind, the namespace it lives in (none for
/// a namespace itself) and its name.
pub struct ObjectRef {
    pub kind: ResourceKind,
    pub namespace: Option<Seq<char>>,
    pub name: Seq<char>,
}

/// The reference made of a kind, a namespace and a name.
pub open spec fn object_ref(kind: ResourceKind, namespace: Option<Seq<char>>, name: Seq<char>) -> ObjectRef {
    ObjectRef { kind, namespace, name }
}

/// The reference to the object of a given kind that the identifying part
/// describes.
pub open spec fn ref_of(kind: ResourceKind, metadata: ObjectMetaView) -> ObjectRef {
    ObjectRef { kind, namespace: metadata.namespace, name: text_or_empty(metadata.name) }
}

/// Whether a node stands for the object referred to.
pub open spec fn node_is(node: NodeView, r: ObjectRef) -> bool {
    node.kind == r.kind && node.name == r.name && node.metadata.namespace == r.namespace
}

/// Whether an object says both what it is called and where it lives. A
/// notification for an object that does not is dropped.
pub open spec fn identified(metadata: ObjectMetaView) -> bool {
    metadata.name is Some && metadata.namespace is Some
}

/// Whether an object says both what it is called and where it lives.
pub fn has_identity(metadata: &ObjectMeta) -> (r: bool)
    ensures
        r == identified(metadata.deep_view()),
{
    metadata.name.is_some() && metadata.namespace.is_some()
}

/// Whether a node stands for the object referred to.
pub fn node_matches(node: &HierarchyNode, kind: ResourceKind, name: &str, namespace: Option<&str>) -> (r:
    bool)
    ensures
        r == node_is(node.deep_view(), object_ref(kind, namespace.deep_view(), name@)),
{
    node.kind == kind && str_eq(node.name.as_str(), name) && opt_str_eq(
        opt_as_str(&node.metadata.namespace),
        namespace,
    )
}

// ---------------------------------------------------------------------------
// Taking an object out

/// A node with every node for the object taken out from under it, each
/// with all that stands under it.
pub open spec fn without(node: NodeView, r: ObjectRef) -> NodeView
    decreases node, 0nat,
{
    NodeView { relatives: without_list(node.relatives, node.relatives.len(), r), ..node }
}

/// The first `k` of the nodes, less those that stand for the object, each of
/// the others with the object taken out from under it.
pub open spec fn without_list(nodes: Seq<NodeView>, k: nat, r: ObjectRef) -> Seq<NodeView>
    decreases nodes, k,
{
    if k == 0 || k > nodes.len() {
        Seq::empty()
    } else {
        let rest = without_list(nodes, (k - 1) as nat, r);
        if node_is(nodes[k - 1], r) {
            rest
        } else {
            rest.push(without(nodes[k - 1], r))
        }
    }
}

/// The forest with the object taken out from under every root. The roots
/// themselves stay.
pub open spec fn forest_without(forest: Seq<NodeView>, r: ObjectRef) -> Seq<NodeView> {
    Seq::new(forest.len(), |i: int| without(forest[i], r))
}

/// Takes every node for an object out from under `node`.
pub fn remove_node(node: &mut HierarchyNode, kind: ResourceKind, name: &str, namespace: Option<&str>)
    ensures
        final(node).deep_view() == without(
            old(node).deep_view(),
            object_ref(kind, namespace.deep_view(), name@),
        ),
    decreases *old(node), 0nat,
{
    let mut children: Vec<HierarchyNode> = Vec::new();
    std::mem::swap(&mut node.relatives, &mut children);
    node.relatives = remove_from_list(children, kind, name, namespace);
    proof {
        lemma_relatives_view(*old(node));
        lemma_relatives_view(*node);
    }
}

fn remove_from_list(
    children: Vec<HierarchyNode>,
    kind: ResourceKind,
    name: &str,
    namespace: Option<&str>,
) -> (out: Vec<HierarchyNode>)
    ensures
        out.deep_view() == without_list(
            children.deep_view(),
            children.len() as nat,
            object_ref(kind, namespace.deep_view(), name@),
        ),
    decreases children, 1nat,
{
    let ghost r = object_ref(kind, namespace.deep_view(), name@);
    let ghost views = children.deep_view();
    let mut out: Vec<HierarchyNode> = Vec::new();
    for child in it: children.into_iter()
        invariant
            it.seq() == children@,
            views == children.deep_view(),
            r == object_ref(kind, namespace.deep_view(), name@),
            out.deep_view() == without_list(views, it.index() as nat, r),
    {
        let mut child = child;
        if !node_matches(&child, kind, name, namespace) {
            remove_node(&mut child, kind, name, namespace);
            out.push(child);
        }
    }
    out
}

/// Takes a pod out from under `node`.
pub fn remove_pod_node(node: &mut HierarchyNode, pod_name: &str, pod_ns: Option<&str>)
    ensures
        final(node).deep_view() == without(
            old(node).deep_view(),
            object_ref(ResourceKind::Pod, pod_ns.deep_view(), pod_name@),
        ),
{
    remove_node(node, ResourceKind::Pod, pod_name, pod_ns);
}

/// Takes a service, with the pods under it, out from under `node`.
pub fn remove_service_node(node: &mut HierarchyNode, service_name: &str, service_ns: Option<&str>)
    ensures
        final(node).deep_view() == without(
            old(node).deep_view(),
            object_ref(ResourceKind::Service, service_ns.deep_view(), service_name@),
        ),
{
    remove_node(node, ResourceKind::Service, service_name, service_ns);
}

/// Takes a route, with the services under it, out from under `node`.
pub fn remove_httproute_node(
    node: &mut HierarchyNode,
    httproute_name: &str,
    httproute_ns: Option<&str>,
)
    ensures
        final(node).deep_view() == without(
            old(node).deep_view(),
            object_ref(ResourceKind::HTTPRoute, httproute_ns.deep_view(), httproute_name@),
        ),
{
    remove_node(node, ResourceKind::HTTPRoute, httproute_name, httproute_ns);
}

/// Takes an object out from under every root of the forest.
pub fn detach(
    hierarchy: &mut Vec<HierarchyNode>,
    kind: ResourceKind,
    name: &str,
    namespace: Option<&str>,
)
    ensures
        final(hierarchy).deep_view() == forest_without(
            old(hierarchy).deep_view(),
            object_ref(kind, namespace.deep_view(), name@),
        ),
{
    let ghost r = object_ref(kind, namespace.deep_view(), name@);
    let ghost before = hierarchy.deep_view();
    let mut i: usize = 0;
    while i < hierarchy.len()
        invariant
            i <= hierarchy@.len(),
            hierarchy@.len() == before.len(),
            r == object_ref(kind, namespace.deep_view(), name@),
            forall|j: int| 0 <= j < i ==> hierarchy@[j].deep_view() == without(before[j], r),
            forall|j: int| i <= j < hierarchy@.len() ==> hierarchy@[j].deep_view() == before[j],
        decreases hierarchy.len() - i,
    {
        remove_node(&mut hierarchy[i], kind, name, namespace);
        i += 1;
    }
}

// ---------------------------------------------------------------------------
// Roots

/// Whether a node is the root of the given namespace.
pub open spec fn is_root_for(node: NodeView, namespace: Option<Seq<char>>) -> bool {
    node.kind == ResourceKind::Namespace && node.metadata.name == namespace
}

/// The position of the first root of the namespace at or after `start`; the
/// length of the forest where there is none.
pub open spec fn root_index(forest: Seq<NodeView>, namespace: Option<Seq<char>>, start: int) -> int
    decreases forest.len() - start,
{
    if start < 0 || start >= forest.len() {
        forest.len() as int
    } else if is_root_for(forest[start], namespace) {
        start
    } else {
        root_index(forest, namespace, start + 1)
    }
}

/// Finds the root of a namespace; the length of the forest where there is
/// none.
pub fn find_root(hierarchy: &Vec<HierarchyNode>, namespace: Option<&str>) -> (i: usize)
    ensures
        i == root_index(hierarchy.deep_view(), namespace.deep_view(), 0),
        i <= hierarchy@.len(),
{
    let ghost views = hierarchy.deep_view();
    let mut i: usize = 0;
    while i < hierarchy.len()
        invariant
            i <= hierarchy@.len(),
            views == hierarchy.deep_view(),
            root_index(views, namespace.deep_view(), 0) == root_index(
                views,
                namespace.deep_view(),
                i as int,
            ),
        decreases hierarchy.len() - i,
    {
        let node = &hierarchy[i];
        if node.kind == ResourceKind::Namespace && opt_str_eq(
            opt_as_str(&node.metadata.name),
            namespace,
        ) {
            return i;
        }
        i += 1;
    }
    i
}

// ---------------------------------------------------------------------------
// Looking an object up

/// Whether a node for the object stands somewhere under `node`.
pub open spec fn holds(node: NodeView, r: ObjectRef) -> bool
    decreases node, 0nat,
{
    holds_list(node.relatives, node.relatives.len(), r)
}

/// Whether one of the first `k` nodes stands for the object, or has a node
/// for it somewhere under it.
pub open spec fn holds_list(nodes: Seq<NodeView>, k: nat, r: ObjectRef) -> bool
    decreases nodes, k,
{
    if k == 0 || k > nodes.len() {
        false
    } else {
        holds_list(nodes, (k - 1) as nat, r) || node_is(nodes[k - 1], r) || holds(nodes[k - 1], r)
    }
}

/// Whether a node for the object stands under one of the first `k` roots.
pub open spec fn forest_holds(forest: Seq<NodeView>, k: nat, r: ObjectRef) -> bool
    decreases k,
{
    if k == 0 || k > forest.len() {
        false
    } else {
        forest_holds(forest, (k - 1) as nat, r) || holds(forest[k - 1], r)
    }
}

/// Whether a node for the object stands somewhere under `node`.
pub fn node_holds(node: &HierarchyNode, kind: ResourceKind, name: &str, namespace: Option<&str>) -> (r:
    bool)
    ensures
        r == holds(node.deep_view(), object_ref(kind, namespace.deep_view(), name@)),
    decreases node,
{
    let ghost target = object_ref(kind, namespace.deep_view(), name@);
    let ghost views = node.relatives.deep_view();
    proof {
        lemma_relatives_view(*node);
    }
    let mut i: usize = 0;
    while i < node.relatives.len()
        invariant
            i <= node.relatives@.len(),
            views == node.relatives.deep_view(),
            target == object_ref(kind, namespace.deep_view(), name@),
            !holds_list(views, i as nat, target),
        decreases node.relatives.len() - i,
    {
        let child = &node.relatives[i];
        if node_matches(child, kind, name, namespace) || node_holds(child, kind, name, namespace) {
            proof {
                lemma_holds_list_grows(views, (i + 1) as nat, views.len(), target);
                assert(node.deep_view().relatives == views);
            }
            return true;
        }
        i += 1;
    }
    false
}

/// What is found among the first `k` nodes is found among the first `n`,
/// for `n` no less than `k`.
pub proof fn lemma_holds_list_grows(nodes: Seq<NodeView>, k: nat, n: nat, r: ObjectRef)
    requires
        k <= n <= nodes.len(),
        holds_list(nodes, k, r),
    ensures
        holds_list(nodes, n, r),
    decreases n - k,
{
    if k < n {
        lemma_holds_list_grows(nodes, k, (n - 1) as nat, r);
    }
}

/// What is found under the first `k` roots is found under the first `n`,
/// for `n` no less than `k`.
pub proof fn lemma_forest_holds_grows(forest: Seq<NodeView>, k: nat, n: nat, r: ObjectRef)
    requires
        k <= n <= forest.len(),
        forest_holds(forest, k, r),
    ensures
        forest_holds(forest, n, r),
    decreases n - k,
{
    if k < n {
        lemma_forest_holds_grows(forest, k, (n - 1) as nat, r);
    }
}

/// Whether a node for the object stands anywhere under the roots of the
/// forest.
pub fn contains_object(
    hierarchy: &Vec<HierarchyNode>,
    kind: ResourceKind,
    name: &str,
    namespace: Option<&str>,
) -> (r: bool)
    ensures
        r == forest_holds(
            hierarchy.deep_view(),
            hierarchy.len() as nat,
            object_ref(kind, namespace.deep_view(), name@),
        ),
{
    let ghost target = object_ref(kind, namespace.deep_view(), name@);
    let ghost views = hierarchy.deep_view();
    let mut i: usize = 0;
    while i < hierarchy.len()
        invariant
            i <= hierarchy@.len(),
            views == hierarchy.deep_view(),
            target == object_ref(kind, namespace.deep_view(), name@),
            !forest_holds(views, i as nat, target),
        decreases hierarchy.len() - i,
    {
        let root = &hierarchy[i];
        if node_holds(root, kind, name, namespace) {
            proof {
                lemma_forest_holds_grows(views, (i + 1) as nat, views.len(), target);
            }
            return true;
        }
        i += 1;
    }
    false
}

} // verus!
