use vstd::prelude::*;

use crate::config::{item_name_rule, ItemConfig, RngConfig};
use crate::content::{
    content_matches, generate_file_content, generate_file_name, spec_content_err, spec_name_of,
};
use crate::errors::GenError;

verus! {

/// A fully resolved tree: every name and every content byte sequence is
/// already generated. Creating the entries on disk is all that is left, and
/// is the caller's part; depth-first pre-order over this tree creates each
/// directory before its children.
#[derive(Debug)]
pub enum ResolvedItem {
    ResolvedFile { name: String, content: Vec<u8> },
    ResolvedDir { name: String, children: Vec<ResolvedItem> },
}

/// The entry name a resolved node carries.
pub open spec fn resolved_name(m: ResolvedItem) -> Seq<char> {
    match m {
        ResolvedItem::ResolvedFile { name, content } => name@,
        ResolvedItem::ResolvedDir { name, children } => name@,
    }
}

/// The error resolving a rule as a name reports, if any.
pub open spec fn spec_name_err(r: RngConfig) -> Option<GenError> {
    match spec_name_of(r) {
        Ok(n) => None,
        Err(e) => Some(e),
    }
}

/// The first name error among the children at or after position `i`,
/// scanning in declaration order.
pub open spec fn spec_child_names_err(items: Seq<ItemConfig>, i: int) -> Option<GenError>
    decreases items.len() - i,
{
    if i < 0 || i >= items.len() {
        None
    } else {
        match spec_name_err(item_name_rule(items[i])) {
            Some(e) => Some(e),
            None => spec_child_names_err(items, i + 1),
        }
    }
}

/// Two siblings resolve their names to the same outcome.
pub open spec fn names_have_dup(items: Seq<ItemConfig>) -> bool {
    exists|i: int, j: int|
        #![trigger spec_name_of(item_name_rule(items[i])), spec_name_of(item_name_rule(items[j]))]
        0 <= i < j < items.len() && spec_name_of(item_name_rule(items[i])) == spec_name_of(
            item_name_rule(items[j]),
        )
}

/// The first error resolving this node reports, if any: its own name first;
/// for a directory then the children's names in order, then a duplicate
/// name among the children, then the children themselves in order.
pub open spec fn spec_item_err(c: ItemConfig) -> Option<GenError>
    decreases c, 0int,
{
    match c {
        ItemConfig::FileConfig { name, rand_gen } => match spec_name_err(name) {
            Some(e) => Some(e),
            None => spec_content_err(rand_gen),
        },
        ItemConfig::DirectoryConfig { name, items } => match spec_name_err(name) {
            Some(e) => Some(e),
            None => match spec_child_names_err(items@, 0) {
                Some(e) => Some(e),
                None => if names_have_dup(items@) {
                    Some(GenError::DuplicateName)
                } else {
                    spec_children_err(items@, 0)
                },
            },
        },
    }
}

/// The first error among the children at or after position `i`.
pub open spec fn spec_children_err(items: Seq<ItemConfig>, i: int) -> Option<GenError>
    decreases items, items.len() - i,
{
    if i < 0 || i >= items.len() {
        None
    } else {
        match spec_item_err(items[i]) {
            Some(e) => Some(e),
            None => spec_children_err(items, i + 1),
        }
    }
}

/// The resolved tree faithfully realizes the configuration node: names are
/// the resolved names, file contents satisfy the content contract, children
/// correspond one to one in declaration order, and sibling names are
/// pairwise distinct.
pub open spec fn resolves_to(conf: ItemConfig, m: ResolvedItem) -> bool
    decreases conf,
{
    match conf {
        ItemConfig::FileConfig { name, rand_gen } => match m {
            ResolvedItem::ResolvedFile { name: rname, content } => spec_name_of(name) == Ok::<
                Seq<char>,
                GenError,
            >(rname@) && content_matches(rand_gen, content@),
            ResolvedItem::ResolvedDir { name: rname, children } => false,
        },
        ItemConfig::DirectoryConfig { name, items } => match m {
            ResolvedItem::ResolvedDir { name: rname, children } => spec_name_of(name) == Ok::<
                Seq<char>,
                GenError,
            >(rname@) && children@.len() == items@.len() && (forall|i: int|
                0 <= i < items@.len() ==> resolves_to(items@[i], #[trigger] children@[i])) && (
            forall|i: int, j: int|
                0 <= i < j < children@.len() ==> resolved_name(#[trigger] children@[i])
                    != resolved_name(#[trigger] children@[j])),
            ResolvedItem::ResolvedFile { name: rname, content } => false,
        },
    }
}

/// A resolved node carries exactly the name its configuration node resolves
/// to.
pub proof fn lemma_resolves_name(c: ItemConfig, m: ResolvedItem)
    requires
        resolves_to(c, m),
    ensures
        spec_name_of(item_name_rule(c)) == Ok::<Seq<char>, GenError>(resolved_name(m)),
{
}

/// If the children before `i` pass the name scan and child `i` fails it,
/// the scan from `k` reports child `i`'s error.
proof fn lemma_child_names_err_at(items: Seq<ItemConfig>, k: int, i: int)
    requires
        0 <= k <= i < items.len(),
        forall|j: int| k <= j < i ==> spec_name_err(item_name_rule(#[trigger] items[j])) is None,
        spec_name_err(item_name_rule(items[i])) is Some,
    ensures
        spec_child_names_err(items, k) == spec_name_err(item_name_rule(items[i])),
    decreases i - k,
{
    if k < i {
        lemma_child_names_err_at(items, k + 1, i);
    }
}

/// If every child at or after `k` passes the name scan, the scan reports
/// nothing.
proof fn lemma_child_names_err_none(items: Seq<ItemConfig>, k: int)
    requires
        forall|j: int| k <= j < items.len() ==> spec_name_err(item_name_rule(#[trigger] items[j])) is None,
    ensures
        spec_child_names_err(items, k) is None,
    decreases items.len() - k,
{
    if 0 <= k < items.len() {
        lemma_child_names_err_none(items, k + 1);
    }
}

/// If the children before `i` resolve and child `i` fails, the children
/// scan from `k` reports child `i`'s error.
proof fn lemma_children_err_at(items: Seq<ItemConfig>, k: int, i: int)
    requires
        0 <= k <= i < items.len(),
        forall|j: int| k <= j < i ==> spec_item_err(#[trigger] items[j]) is None,
        spec_item_err(items[i]) is Some,
    ensures
        spec_children_err(items, k) == spec_item_err(items[i]),
    decreases i - k,
{
    if k < i {
        lemma_children_err_at(items, k + 1, i);
    }
}

/// If every child at or after `k` resolves, the children scan reports
/// nothing.
proof fn lemma_children_err_none(items: Seq<ItemConfig>, k: int)
    requires
        forall|j: int| k <= j < items.len() ==> spec_item_err(#[trigger] items[j]) is None,
    ensures
        spec_children_err(items, k) is None,
    decreases items.len() - k,
{
    if 0 <= k < items.len() {
        lemma_children_err_none(items, k + 1);
    }
}

/// Resolves one configuration node into a resolved tree, reporting exactly
/// the first error `spec_item_err` names, in the same order the resolution
/// walks the node.
#[verifier::rlimit(60)]
#[verifier::loop_isolation(false)]
pub fn resolve_item(conf: &ItemConfig) -> (r: Result<ResolvedItem, GenError>)
    ensures
        r is Ok ==> spec_item_err(*conf) is None && resolves_to(*conf, r->Ok_0),
        r is Err ==> spec_item_err(*conf) == Some(r->Err_0),
    decreases *conf,
{
    match conf {
        ItemConfig::FileConfig { name, rand_gen } => {
            let rname = match generate_file_name(name) {
                Ok(n) => n,
                Err(e) => {
                    return Err(e);
                },
            };
            let content = match generate_file_content(rand_gen) {
                Ok(c) => c,
                Err(e) => {
                    return Err(e);
                },
            };
            Ok(ResolvedItem::ResolvedFile { name: rname, content })
        },
        ItemConfig::DirectoryConfig { name, items } => {
            let rname = match generate_file_name(name) {
                Ok(n) => n,
                Err(e) => {
                    return Err(e);
                },
            };
            let mut names: Vec<String> = Vec::new();
            for i in 0..items.len()
                invariant
                    names@.len() == i,
                    forall|j: int|
                        0 <= j < i ==> spec_name_err(item_name_rule(#[trigger] items@[j])) is None,
                    forall|j: int|
                        0 <= j < i ==> names@[j]@ == spec_name_of(
                            item_name_rule(#[trigger] items@[j]),
                        )->Ok_0,
            {
                let rule = match &items[i] {
                    ItemConfig::FileConfig { name, rand_gen } => name,
                    ItemConfig::DirectoryConfig { name, items } => name,
                };
                match generate_file_name(rule) {
                    Ok(n) => names.push(n),
                    Err(e) => {
                        proof {
                            lemma_child_names_err_at(items@, 0, i as int);
                        }
                        return Err(e);
                    },
                }
            }
            proof {
                lemma_child_names_err_none(items@, 0);
            }
            for a in 0..names.len()
                invariant
                    forall|i: int, j: int| 0 <= i < j < a ==> names@[i]@ != names@[j]@,
            {
                for b in 0..a
                    invariant
                        forall|j: int| 0 <= j < b ==> names@[j]@ != names@[a as int]@,
                {
                    if names[b].eq(&names[a]) {
                        proof {
                            assert(spec_name_of(item_name_rule(items@[b as int]))
                                == spec_name_of(item_name_rule(items@[a as int])));
                            assert(names_have_dup(items@));
                        }
                        return Err(GenError::DuplicateName);
                    }
                }
            }
            proof {
                assert(!names_have_dup(items@)) by {
                    if names_have_dup(items@) {
                        let (i, j) = choose|i: int, j: int|
                            0 <= i < j < items@.len() && #[trigger] spec_name_of(
                                item_name_rule(items@[i]),
                            ) == #[trigger] spec_name_of(item_name_rule(items@[j]));
                        assert(names@[i]@ == names@[j]@);
                    }
                }
            }
            let mut children: Vec<ResolvedItem> = Vec::new();
            for i in 0..items.len()
                invariant
                    children@.len() == i,
                    forall|j: int| 0 <= j < i ==> spec_item_err(#[trigger] items@[j]) is None,
                    forall|j: int|
                        0 <= j < i ==> resolves_to(#[trigger] items@[j], children@[j]),
            {
                proof {
                    assert(decreases_to!(*conf => items@));
                    assert(decreases_to!(items@ => items@[i as int]));
                }
                match resolve_item(&items[i]) {
                    Ok(m) => {
                        proof {
                            lemma_resolves_name(items@[i as int], m);
                        }
                        children.push(m);
                    },
                    Err(e) => {
                        proof {
                            lemma_children_err_at(items@, 0, i as int);
                        }
                        return Err(e);
                    },
                }
            }
            proof {
                lemma_children_err_none(items@, 0);
                assert forall|i: int, j: int|
                    0 <= i < j < children@.len() implies resolved_name(#[trigger] children@[i])
                    != resolved_name(#[trigger] children@[j]) by {
                    lemma_resolves_name(items@[i], children@[i]);
                    lemma_resolves_name(items@[j], children@[j]);
                    assert(resolved_name(children@[i]) == names@[i]@);
                    assert(resolved_name(children@[j]) == names@[j]@);
                }
            }
            Ok(ResolvedItem::ResolvedDir { name: rname, children })
        },
    }
}

/// The error a full generation pass into a target directory reports, if
/// any: the root name first, then a collision with an entry already in the
/// target directory, then the resolution of the tree itself.
pub open spec fn spec_generate_err(conf: ItemConfig, existing: Seq<Seq<char>>) -> Option<
    GenError,
> {
    match spec_name_of(item_name_rule(conf)) {
        Err(e) => Some(e),
        Ok(n) => if existing.contains(n) {
            Some(GenError::AlreadyExists)
        } else {
            spec_item_err(conf)
        },
    }
}

/// Resolves a configuration tree for materialization into a directory that
/// already holds the entries named in `existing`. On success the resolved
/// tree realizes the configuration and its root name collides with no
/// existing entry; on failure nothing is resolved and the error is exactly
/// the first one the walk meets, with `AlreadyExists` reported for a root
/// name already present.
#[verifier::loop_isolation(false)]
pub fn generate_file(conf: &ItemConfig, existing: &Vec<String>) -> (r: Result<
    ResolvedItem,
    GenError,
>)
    ensures
        r is Ok ==> spec_generate_err(*conf, existing.deep_view()) is None && resolves_to(
            *conf,
            r->Ok_0,
        ) && !existing.deep_view().contains(resolved_name(r->Ok_0)),
        r is Err ==> spec_generate_err(*conf, existing.deep_view()) == Some(r->Err_0),
{
    let ghost dv: Seq<Seq<char>> = existing.deep_view();
    proof {
        assert(dv.len() == existing@.len());
        assert(forall|i: int| 0 <= i < dv.len() ==> #[trigger] dv[i] == existing@[i]@);
    }
    let rule = match conf {
        ItemConfig::FileConfig { name, rand_gen } => name,
        ItemConfig::DirectoryConfig { name, items } => name,
    };
    let rname = match generate_file_name(rule) {
        Ok(n) => n,
        Err(e) => {
            return Err(e);
        },
    };
    for i in 0..existing.len()
        invariant
            forall|j: int| 0 <= j < i ==> existing@[j]@ != rname@,
    {
        if existing[i].eq(&rname) {
            proof {
                assert(dv[i as int] == rname@);
                assert(dv.contains(rname@));
            }
            return Err(GenError::AlreadyExists);
        }
    }
    proof {
        assert(!dv.contains(rname@)) by {
            if dv.contains(rname@) {
                let i = choose|i: int| 0 <= i < dv.len() && dv[i] == rname@;
                assert(existing@[i]@ == rname@);
            }
        }
    }
    match resolve_item(conf) {
        Ok(m) => {
            proof {
                lemma_resolves_name(*conf, m);
            }
            Ok(m)
        },
        Err(e) => Err(e),
    }
}

/// Two siblings that resolve to the same name make materializing their
/// directory fail, so at most the entries of an earlier, separate pass can
/// exist on disk: the failing pass resolves no tree at all. When the
/// directory's own name and every child name resolve, the error is exactly
/// `DuplicateName`.
pub proof fn lemma_duplicate_children_rejected(
    name: RngConfig,
    items: Vec<ItemConfig>,
    i: int,
    j: int,
)
    requires
        0 <= i < j < items@.len(),
        spec_name_of(item_name_rule(items@[i])) == spec_name_of(item_name_rule(items@[j])),
    ensures
        spec_item_err(ItemConfig::DirectoryConfig { name, items }) is Some,
        spec_name_err(name) is None && spec_child_names_err(items@, 0) is None
            ==> spec_item_err(ItemConfig::DirectoryConfig { name, items }) == Some(
            GenError::DuplicateName,
        ),
{
    if spec_name_err(name) is None && spec_child_names_err(items@, 0) is None {
        assert(names_have_dup(items@));
    }
}

/// A root whose resolved name is already present in the target directory is
/// rejected as `AlreadyExists`, and the pass resolves nothing.
pub proof fn lemma_existing_name_rejected(conf: ItemConfig, existing: Seq<Seq<char>>)
    requires
        spec_name_of(item_name_rule(conf)) is Ok,
        existing.contains(spec_name_of(item_name_rule(conf))->Ok_0),
    ensures
        spec_generate_err(conf, existing) == Some(GenError::AlreadyExists),
{
}

} // verus!
