//! The navigation tree: the keys of the tracked documents, arranged by the
//! directories in their paths.

use crate::paths::{to_lowercase, unicode_lowercase};
use crate::text::{
    after_first, before_first, holds_char, lemma_after_first_is_shorter,
    lemma_text_lt_strict_total, split_once, str_eq, str_lt, text_lt,
};
use vstd::prelude::*;
use vstd::string::*;

verus! {

/// An entry of the navigation tree.
#[derive(Debug)]
pub enum TreeNode {
    /// A directory, with what lies in it.
    Directory { name: String, children: Vec<TreeNode> },
    /// A document: its file name, and its key as the path to ask for.
    File { name: String, path: String },
}

/// An entry of the navigation tree in specifications.
pub enum Tree {
    Directory { name: Seq<char>, children: Seq<Tree> },
    File { name: Seq<char>, path: Seq<char> },
}

impl DeepView for TreeNode {
    type V = Tree;

    open spec fn deep_view(&self) -> Tree
        decreases self,
    {
        match self {
            TreeNode::Directory { name, children } => Tree::Directory {
                name: name@,
                children: Seq::new(
                    children@.len(),
                    |i: int|
                        if 0 <= i < children@.len() {
                            children@[i].deep_view()
                        } else {
                            Tree::File { name: Seq::empty(), path: Seq::empty() }
                        },
                ),
            },
            TreeNode::File { name, path } => Tree::File { name: name@, path: path@ },
        }
    }
}

impl Tree {
    /// The name that the entry is shown under.
    pub open spec fn name(self) -> Seq<char> {
        match self {
            Tree::Directory { name, .. } => name,
            Tree::File { name, .. } => name,
        }
    }

    /// What the entry is sorted by: its name in lower case.
    pub open spec fn sort_key(self) -> Seq<char> {
        unicode_lowercase(self.name())
    }
}

/// Whether `path` goes through a directory: it holds a slash.
pub open spec fn has_slash(path: Seq<char>) -> bool {
    holds_char(path, '/')
}

/// The first component of a path that holds a slash: what stands before
/// the first one.
pub open spec fn head_of(path: Seq<char>) -> Seq<char> {
    before_first(path, '/')
}

/// The rest of a path that holds a slash: what stands after the first one.
pub open spec fn rest_of(path: Seq<char>) -> Seq<char> {
    after_first(path, '/')
}

/// Splits `path` at its first slash into what stands before and what
/// stands after; `None` for a path without a slash.
pub fn split_first(path: &str) -> (parts: Option<(String, String)>)
    ensures
        match parts {
            Some((head, rest)) => has_slash(path@) && head@ == head_of(path@) && rest@ == rest_of(
                path@,
            ),
            None => !has_slash(path@),
        },
{
    split_once(path, '/')
}

/// The path of `name` below `prefix`: the two with a slash between them,
/// and `name` alone at the top, where the prefix is empty.
pub open spec fn joined(prefix: Seq<char>, name: Seq<char>) -> Seq<char> {
    if prefix.len() == 0 {
        name
    } else {
        prefix + seq!['/'] + name
    }
}

/// The path of `name` below `prefix`.
pub fn join_under(prefix: &str, name: &str) -> (path: String)
    ensures
        path@ == joined(prefix@, name@),
{
    if prefix.is_empty() {
        name.to_owned()
    } else {
        let mut path = prefix.to_owned();
        proof {
            reveal_strlit("/");
            assert("/"@ =~= seq!['/']);
        }
        path.append("/");
        path.append(name);
        path
    }
}

/// A directory of one level, with the paths that lead through it, each
/// without the directory's name in front.
pub struct Branch {
    /// The directory's name.
    pub name: Seq<char>,
    /// What follows the name in each path that leads through it.
    pub rests: Seq<Seq<char>>,
}

/// Whether `i` is where a directory called `name` belongs among
/// `branches`: behind those with a smaller name, before the first other.
pub open spec fn branch_place_at(branches: Seq<Branch>, name: Seq<char>, i: int) -> bool {
    &&& 0 <= i <= branches.len()
    &&& forall|k: int| 0 <= k < i ==> text_lt(#[trigger] branches[k].name, name)
    &&& i < branches.len() ==> !text_lt(branches[i].name, name)
}

/// Where a directory called `name` belongs among `branches`.
pub open spec fn branch_place(branches: Seq<Branch>, name: Seq<char>) -> int {
    choose|i: int| branch_place_at(branches, name, i)
}

/// A place where `name` belongs, found from `from` on, all directories
/// before `from` having smaller names.
proof fn lemma_branch_place_from(branches: Seq<Branch>, name: Seq<char>, from: int) -> (at: int)
    requires
        0 <= from <= branches.len(),
        forall|k: int| 0 <= k < from ==> text_lt(#[trigger] branches[k].name, name),
    ensures
        branch_place_at(branches, name, at),
    decreases branches.len() - from,
{
    if from < branches.len() && text_lt(branches[from].name, name) {
        lemma_branch_place_from(branches, name, from + 1)
    } else {
        from
    }
}

/// Every name has its place among the directories.
pub proof fn lemma_branch_place_exists(branches: Seq<Branch>, name: Seq<char>)
    ensures
        branch_place_at(branches, name, branch_place(branches, name)),
{
    let at = lemma_branch_place_from(branches, name, 0);
}

/// There is one place where a name belongs.
pub proof fn lemma_branch_place(branches: Seq<Branch>, name: Seq<char>, i: int)
    requires
        branch_place_at(branches, name, i),
    ensures
        branch_place(branches, name) == i,
{
    let j = branch_place(branches, name);
    assert(branch_place_at(branches, name, j));
    if j < i {
        assert(text_lt(branches[j].name, name));
    } else if i < j {
        assert(text_lt(branches[i].name, name));
    }
}

/// The directories of a level after a path through the directory `name`
/// was added, `rest` being what follows the name: the path joins the
/// directory's other paths, and a directory met for the first time takes
/// its place in the order of names.
pub open spec fn with_rest(branches: Seq<Branch>, name: Seq<char>, rest: Seq<char>) -> Seq<Branch> {
    let at = branch_place(branches, name);
    if at < branches.len() && branches[at].name == name {
        branches.update(at, Branch { name, rests: branches[at].rests.push(rest) })
    } else {
        branches.insert(at, Branch { name, rests: seq![rest] })
    }
}

/// One level of the tree before it is put in order: the directories that
/// paths lead through, and the documents that lie at this level.
pub struct Level {
    /// The directories, in the order of their names.
    pub branches: Seq<Branch>,
    /// The documents, in the order in which they were listed.
    pub files: Seq<Seq<char>>,
}

/// The level that `paths` make up: a path with a slash goes to the
/// directory that its first component names, a path without one is a
/// document of this level. Documents keep the order of `paths`, and so do
/// the paths within a directory; directories stand in the order of their
/// names.
pub open spec fn level_of(paths: Seq<Seq<char>>) -> Level
    decreases paths.len(),
{
    if paths.len() == 0 {
        Level { branches: Seq::empty(), files: Seq::empty() }
    } else {
        let before = level_of(paths.drop_last());
        let path = paths.last();
        if has_slash(path) {
            Level { branches: with_rest(before.branches, head_of(path), rest_of(path)), ..before }
        } else {
            Level { files: before.files.push(path), ..before }
        }
    }
}

/// The paths among `paths` that lead through the directory `name`, each
/// without the name in front, in the order of `paths`.
pub open spec fn rests_under(paths: Seq<Seq<char>>, name: Seq<char>) -> Seq<Seq<char>>
    decreases paths.len(),
{
    if paths.len() == 0 {
        Seq::empty()
    } else {
        let before = rests_under(paths.drop_last(), name);
        let path = paths.last();
        if has_slash(path) && head_of(path) == name {
            before.push(rest_of(path))
        } else {
            before
        }
    }
}

/// The paths among `paths` that hold no slash, in the order of `paths`.
pub open spec fn plain_names(paths: Seq<Seq<char>>) -> Seq<Seq<char>>
    decreases paths.len(),
{
    if paths.len() == 0 {
        Seq::empty()
    } else {
        let before = plain_names(paths.drop_last());
        if has_slash(paths.last()) {
            before
        } else {
            before.push(paths.last())
        }
    }
}

/// Whether `branches` are the directories that `paths` lead through: one
/// for each first component, in the strict order of the names, each with
/// all the paths that lead through it.
pub open spec fn groups_paths(branches: Seq<Branch>, paths: Seq<Seq<char>>) -> bool {
    &&& forall|i: int, j: int|
        0 <= i < j < branches.len() ==> text_lt(
            (#[trigger] branches[i]).name,
            (#[trigger] branches[j]).name,
        )
    &&& forall|i: int|
        0 <= i < branches.len() ==> (#[trigger] branches[i]).rests == rests_under(
            paths,
            branches[i].name,
        ) && branches[i].rests.len() > 0
    &&& forall|name: Seq<char>|
        (#[trigger] rests_under(paths, name)).len() > 0 ==> exists|i: int|
            0 <= i < branches.len() && (#[trigger] branches[i]).name == name
}

/// A level sorts its paths by their first component: the documents are
/// the paths without a slash, and the directories are one for each first
/// component, in the order of the names, each with every path that leads
/// through it.
pub proof fn lemma_level_groups_paths(paths: Seq<Seq<char>>)
    ensures
        level_of(paths).files == plain_names(paths),
        groups_paths(level_of(paths).branches, paths),
    decreases paths.len(),
{
    if paths.len() > 0 {
        let earlier = paths.drop_last();
        lemma_level_groups_paths(earlier);
        let prior = level_of(earlier).branches;
        let next = level_of(paths).branches;
        let path = paths.last();
        if has_slash(path) {
            let name = head_of(path);
            let rest = rest_of(path);
            let at = branch_place(prior, name);
            lemma_branch_place_exists(prior, name);
            if at < prior.len() && prior[at].name == name {
                assert forall|i: int| 0 <= i < next.len() implies (#[trigger] next[i]).name
                    == prior[i].name by {}
                assert forall|i: int, j: int| 0 <= i < j < next.len() implies text_lt(
                    (#[trigger] next[i]).name,
                    (#[trigger] next[j]).name,
                ) by {
                    assert(text_lt(prior[i].name, prior[j].name));
                }
                assert forall|i: int| 0 <= i < next.len() implies (#[trigger] next[i]).rests
                    == rests_under(paths, next[i].name) && next[i].rests.len() > 0 by {
                    assert(prior[i].rests == rests_under(earlier, prior[i].name));
                    if i != at {
                        lemma_text_lt_strict_total(name, name, name);
                        if i < at {
                            assert(text_lt(prior[i].name, prior[at].name));
                        } else {
                            assert(text_lt(prior[at].name, prior[i].name));
                        }
                    }
                }
                assert forall|other: Seq<char>| (#[trigger] rests_under(paths, other)).len()
                    > 0 implies exists|i: int|
                    0 <= i < next.len() && (#[trigger] next[i]).name == other by {
                    if other == name {
                        assert(next[at].name == other);
                    } else {
                        assert(rests_under(earlier, other).len() > 0);
                        let i = choose|i: int|
                            0 <= i < prior.len() && (#[trigger] prior[i]).name == other;
                        assert(next[i].name == other);
                    }
                }
            } else {
                assert forall|k: int| at <= k < prior.len() implies text_lt(
                    name,
                    (#[trigger] prior[k]).name,
                ) by {
                    lemma_text_lt_strict_total(name, prior[at].name, prior[k].name);
                    if at < k {
                        assert(text_lt(prior[at].name, prior[k].name));
                    }
                }
                assert forall|k: int| 0 <= k < prior.len() implies (#[trigger] prior[k]).name
                    != name by {
                    lemma_text_lt_strict_total(name, name, name);
                    if k < at {
                        assert(text_lt(prior[k].name, name));
                    } else {
                        assert(text_lt(name, prior[k].name));
                    }
                }
                assert(rests_under(earlier, name).len() == 0);
                assert(rests_under(earlier, name) =~= Seq::<Seq<char>>::empty());
                assert forall|i: int, j: int| 0 <= i < j < next.len() implies text_lt(
                    (#[trigger] next[i]).name,
                    (#[trigger] next[j]).name,
                ) by {
                    let a = if i < at { i } else { i - 1 };
                    let b = if j < at { j } else { j - 1 };
                    if i == at {
                        assert(next[j] == prior[b]);
                    } else if j == at {
                        assert(next[i] == prior[a]);
                        assert(text_lt(prior[a].name, name));
                    } else {
                        assert(next[i] == prior[a]);
                        assert(next[j] == prior[b]);
                        assert(text_lt(prior[a].name, prior[b].name));
                    }
                }
                assert forall|i: int| 0 <= i < next.len() implies (#[trigger] next[i]).rests
                    == rests_under(paths, next[i].name) && next[i].rests.len() > 0 by {
                    if i == at {
                        assert(next[i].rests =~= rests_under(earlier, name).push(rest));
                    } else {
                        let a = if i < at { i } else { i - 1 };
                        assert(next[i] == prior[a]);
                        assert(prior[a].rests == rests_under(earlier, prior[a].name));
                    }
                }
                assert forall|other: Seq<char>| (#[trigger] rests_under(paths, other)).len()
                    > 0 implies exists|i: int|
                    0 <= i < next.len() && (#[trigger] next[i]).name == other by {
                    if other == name {
                        assert(next[at].name == other);
                    } else {
                        assert(rests_under(earlier, other).len() > 0);
                        let i = choose|i: int|
                            0 <= i < prior.len() && (#[trigger] prior[i]).name == other;
                        let b = if i < at { i } else { i + 1 };
                        assert(next[b] == prior[i]);
                    }
                }
            }
        } else {
            assert forall|i: int| 0 <= i < next.len() implies (#[trigger] next[i]).rests
                == rests_under(paths, next[i].name) && next[i].rests.len() > 0 by {
                assert(prior[i].rests == rests_under(earlier, prior[i].name));
            }
            assert forall|other: Seq<char>| (#[trigger] rests_under(paths, other)).len()
                > 0 implies exists|i: int|
                0 <= i < next.len() && (#[trigger] next[i]).name == other by {
                assert(rests_under(earlier, other).len() > 0);
            }
        }
    }
}

/// The size of a list of paths: their characters, and one more for each.
pub open spec fn weight(paths: Seq<Seq<char>>) -> nat
    decreases paths.len(),
{
    if paths.len() == 0 {
        0
    } else {
        weight(paths.drop_last()) + paths.last().len() + 1
    }
}

/// The paths that lead through a directory are, taken together, smaller
/// than the paths of the level.
pub proof fn lemma_rests_weigh_less(paths: Seq<Seq<char>>, i: int)
    requires
        0 <= i < level_of(paths).branches.len(),
    ensures
        weight(level_of(paths).branches[i].rests) < weight(paths),
    decreases paths.len(),
{
    if paths.len() > 0 {
        let before = level_of(paths.drop_last());
        let path = paths.last();
        if has_slash(path) {
            let name = head_of(path);
            let rest = rest_of(path);
            let at = branch_place(before.branches, name);
            lemma_branch_place_exists(before.branches, name);
            lemma_after_first_is_shorter(path, '/');
            let after = level_of(paths).branches;
            assert(after == with_rest(before.branches, name, rest));
            assert(weight(paths) == weight(paths.drop_last()) + path.len() + 1);
            if at < before.branches.len() && before.branches[at].name == name {
                if i == at {
                    lemma_rests_weigh_less(paths.drop_last(), at);
                    let grown = before.branches[at].rests.push(rest);
                    assert(grown.drop_last() =~= before.branches[at].rests);
                    assert(grown.last() == rest);
                    assert(after[i].rests == grown);
                    assert(weight(grown) == weight(before.branches[at].rests) + rest.len() + 1);
                } else {
                    lemma_rests_weigh_less(paths.drop_last(), i);
                    assert(after[i] == before.branches[i]);
                }
            } else {
                if i == at {
                    let alone = seq![rest];
                    assert(alone.drop_last() =~= Seq::<Seq<char>>::empty());
                    assert(alone.last() == rest);
                    assert(weight(alone.drop_last()) == 0);
                    assert(weight(alone) == rest.len() + 1);
                    assert(after[i].rests == alone);
                } else if i < at {
                    lemma_rests_weigh_less(paths.drop_last(), i);
                    assert(after[i] == before.branches[i]);
                } else {
                    lemma_rests_weigh_less(paths.drop_last(), i - 1);
                    assert(after[i] == before.branches[i - 1]);
                }
            }
        } else {
            lemma_rests_weigh_less(paths.drop_last(), i);
        }
    }
}

/// A directory of a level while the tree is built.
struct Group {
    name: String,
    rests: Vec<String>,
}

impl Group {
    spec fn branch(self) -> Branch {
        Branch { name: self.name@, rests: self.rests.deep_view() }
    }
}

/// The directories that `groups` stand for.
spec fn branches_of(groups: Seq<Group>) -> Seq<Branch> {
    Seq::new(groups.len(), |i: int| groups[i].branch())
}

/// Adds a path through the directory `name` to the directories of a
/// level.
fn add_rest(groups: &mut Vec<Group>, name: String, rest: String)
    ensures
        branches_of(final(groups)@) == with_rest(branches_of(old(groups)@), name@, rest@),
{
    let ghost before = branches_of(groups@);
    let mut at: usize = 0;
    while at < groups.len() && str_lt(groups[at].name.as_str(), name.as_str())
        invariant
            groups@ == old(groups)@,
            at <= groups@.len(),
            forall|k: int| 0 <= k < at ==> text_lt(#[trigger] before[k].name, name@),
            before == branches_of(groups@),
        decreases groups@.len() - at,
    {
        assert(before[at as int].name == groups@[at as int].name@);
        at += 1;
    }
    proof {
        if at < groups@.len() {
            assert(before[at as int].name == groups@[at as int].name@);
        }
        lemma_branch_place(before, name@, at as int);
    }
    if at < groups.len() && str_eq(groups[at].name.as_str(), name.as_str()) {
        let mut group = groups.remove(at);
        let ghost rests = group.rests.deep_view();
        group.rests.push(rest);
        assert(group.rests.deep_view() =~= rests.push(rest@));
        groups.insert(at, group);
        assert(branches_of(groups@) =~= with_rest(before, name@, rest@));
    } else {
        let mut rests: Vec<String> = Vec::new();
        rests.push(rest);
        assert(rests.deep_view() =~= seq![rest@]);
        groups.insert(at, Group { name, rests });
        assert(branches_of(groups@) =~= with_rest(before, name@, rest@));
    }
}

/// Sorts `paths` into the directories and the documents of one level.
fn split_level(paths: &Vec<String>) -> (level: (Vec<Group>, Vec<String>))
    ensures
        branches_of(level.0@) == level_of(paths.deep_view()).branches,
        level.1.deep_view() == level_of(paths.deep_view()).files,
{
    let mut groups: Vec<Group> = Vec::new();
    let mut files: Vec<String> = Vec::new();
    let ghost all = paths.deep_view();
    let mut i: usize = 0;
    assert(all.take(0) =~= Seq::<Seq<char>>::empty());
    assert(branches_of(groups@) =~= Seq::<Branch>::empty());
    assert(files.deep_view() =~= Seq::<Seq<char>>::empty());
    while i < paths.len()
        invariant
            all == paths.deep_view(),
            i <= paths@.len(),
            branches_of(groups@) == level_of(all.take(i as int)).branches,
            files.deep_view() == level_of(all.take(i as int)).files,
        decreases paths@.len() - i,
    {
        proof {
            assert(all.take(i + 1).drop_last() =~= all.take(i as int));
            assert(all.take(i + 1).last() == paths@[i as int]@);
        }
        match split_first(paths[i].as_str()) {
            Some((head, rest)) => {
                add_rest(&mut groups, head, rest);
            },
            None => {
                let ghost listed = files.deep_view();
                files.push(paths[i].clone());
                assert(files.deep_view() =~= listed.push(paths@[i as int]@));
            },
        }
        i += 1;
    }
    assert(all.take(i as int) =~= all);
    (groups, files)
}

/// Whether `i` is where an entry with the sort key `key` goes into
/// `items`: before every entry with a greater key, and behind the last
/// entry whose key is not greater.
pub open spec fn sorted_place_at(items: Seq<Tree>, key: Seq<char>, i: int) -> bool {
    &&& 0 <= i <= items.len()
    &&& forall|k: int| i <= k < items.len() ==> text_lt(key, #[trigger] items[k].sort_key())
    &&& i > 0 ==> !text_lt(key, items[i - 1].sort_key())
}

/// Where an entry with the sort key `key` goes into `items`.
pub open spec fn sorted_place(items: Seq<Tree>, key: Seq<char>) -> int {
    choose|i: int| sorted_place_at(items, key, i)
}

/// A place where `key` goes, found from `from` downwards, all entries
/// from `from` on having greater keys.
proof fn lemma_sorted_place_from(items: Seq<Tree>, key: Seq<char>, from: int) -> (at: int)
    requires
        0 <= from <= items.len(),
        forall|k: int| from <= k < items.len() ==> text_lt(key, #[trigger] items[k].sort_key()),
    ensures
        sorted_place_at(items, key, at),
    decreases from,
{
    if from > 0 && text_lt(key, items[from - 1].sort_key()) {
        lemma_sorted_place_from(items, key, from - 1)
    } else {
        from
    }
}

/// There is one place where a key goes.
pub proof fn lemma_sorted_place(items: Seq<Tree>, key: Seq<char>, i: int)
    requires
        sorted_place_at(items, key, i),
    ensures
        sorted_place(items, key) == i,
{
    let j = sorted_place(items, key);
    assert(sorted_place_at(items, key, j));
    if j < i {
        assert(text_lt(key, items[i - 1].sort_key()));
    } else if i < j {
        assert(text_lt(key, items[j - 1].sort_key()));
    }
}

/// `items` with `item` put in by its sort key, behind the entries that
/// share the key.
pub open spec fn sorted_in(items: Seq<Tree>, item: Tree) -> Seq<Tree> {
    items.insert(sorted_place(items, item.sort_key()), item)
}

/// `items` in the order of their names in lower case. Entries whose names
/// agree in lower case keep the order they came in.
pub open spec fn sorted_by_name(items: Seq<Tree>) -> Seq<Tree>
    decreases items.len(),
{
    if items.len() == 0 {
        Seq::empty()
    } else {
        sorted_in(sorted_by_name(items.drop_last()), items.last())
    }
}

/// Whether `items` stand in the order of their sort keys: no entry is
/// followed by one with a smaller key.
pub open spec fn in_name_order(items: Seq<Tree>) -> bool {
    forall|i: int, j: int|
        0 <= i < j < items.len() ==> !text_lt(
            (#[trigger] items[j]).sort_key(),
            (#[trigger] items[i]).sort_key(),
        )
}

/// An entry put into ordered entries by its key leaves them ordered, and
/// adds itself to them and nothing else.
pub proof fn lemma_sorted_in(items: Seq<Tree>, item: Tree)
    requires
        in_name_order(items),
    ensures
        in_name_order(sorted_in(items, item)),
        sorted_in(items, item).to_multiset() == items.to_multiset().insert(item),
{
    let key = item.sort_key();
    let early = lemma_sorted_place_from(items, key, items.len() as int);
    let at = sorted_place(items, key);
    assert(sorted_place_at(items, key, at));
    let grown = items.insert(at, item);
    assert forall|i: int, j: int| 0 <= i < j < grown.len() implies !text_lt(
        (#[trigger] grown[j]).sort_key(),
        (#[trigger] grown[i]).sort_key(),
    ) by {
        if j == at {
            assert(grown[j] == item);
            assert(grown[i] == items[i]);
            let last = items[at - 1].sort_key();
            let this = items[i].sort_key();
            lemma_text_lt_strict_total(key, this, last);
            lemma_text_lt_strict_total(this, last, this);
            if i < at - 1 {
                assert(!text_lt(items[at - 1].sort_key(), items[i].sort_key()));
            }
        } else if i == at {
            assert(grown[i] == item);
            assert(grown[j] == items[j - 1]);
            let that = items[j - 1].sort_key();
            assert(text_lt(key, that));
            lemma_text_lt_strict_total(key, that, key);
        } else {
            let a = if i < at { i } else { i - 1 };
            let b = if j < at { j } else { j - 1 };
            assert(grown[i] == items[a]);
            assert(grown[j] == items[b]);
            assert(!text_lt(items[b].sort_key(), items[a].sort_key()));
        }
    }
    vstd::seq_lib::to_multiset_insert(items, at, item);
}

/// Sorting by name puts the entries in the order of their sort keys, and
/// neither drops an entry nor adds one.
pub proof fn lemma_sorted_by_name(items: Seq<Tree>)
    ensures
        in_name_order(sorted_by_name(items)),
        sorted_by_name(items).to_multiset() == items.to_multiset(),
    decreases items.len(),
{
    if items.len() == 0 {
        assert(sorted_by_name(items) =~= items);
    } else {
        lemma_sorted_by_name(items.drop_last());
        lemma_sorted_in(sorted_by_name(items.drop_last()), items.last());
        vstd::seq_lib::to_multiset_build(items.drop_last(), items.last());
        assert(items.drop_last().push(items.last()) =~= items);
    }
}

/// Every level of the navigation tree stands in the order of its
/// entries' names in lower case.
pub proof fn lemma_tree_level_is_ordered(paths: Seq<Seq<char>>, prefix: Seq<char>)
    ensures
        in_name_order(tree_level(paths, prefix)),
{
    let level = level_of(paths);
    lemma_sorted_by_name(
        directories(paths, prefix, level.branches.len() as int) + documents(level.files, prefix),
    );
}

/// The documents of a level as entries: each under its name, with its
/// path from the top.
pub open spec fn documents(files: Seq<Seq<char>>, prefix: Seq<char>) -> Seq<Tree> {
    Seq::new(files.len(), |i: int| Tree::File { name: files[i], path: joined(prefix, files[i]) })
}

/// The entries of the level that `paths` make up below `prefix`: its
/// directories, each with the level below it, and its documents, all in
/// the order of their names in lower case.
pub open spec fn tree_level(paths: Seq<Seq<char>>, prefix: Seq<char>) -> Seq<Tree>
    decreases weight(paths), level_of(paths).branches.len() + 1,
{
    let level = level_of(paths);
    sorted_by_name(
        directories(paths, prefix, level.branches.len() as int) + documents(level.files, prefix),
    )
}

/// The first `n` directories of the level that `paths` make up below
/// `prefix`, as entries.
pub open spec fn directories(paths: Seq<Seq<char>>, prefix: Seq<char>, n: int) -> Seq<Tree>
    decreases weight(paths), n,
{
    let branches = level_of(paths).branches;
    if n <= 0 || n > branches.len() {
        Seq::empty()
    } else {
        let branch = branches[n - 1];
        proof {
            lemma_rests_weigh_less(paths, n - 1);
        }
        directories(paths, prefix, n - 1).push(
            Tree::Directory {
                name: branch.name,
                children: tree_level(branch.rests, joined(prefix, branch.name)),
            },
        )
    }
}

/// The navigation tree for the documents with the keys `paths`.
pub open spec fn file_tree(paths: Seq<Seq<char>>) -> Seq<Tree> {
    tree_level(paths, Seq::empty())
}

/// Puts `node` into `nodes` by its sort key `key`; `keys` holds the sort
/// keys of `nodes`, place by place.
fn insert_sorted(keys: &mut Vec<String>, nodes: &mut Vec<TreeNode>, key: String, node: TreeNode)
    requires
        old(keys)@.len() == old(nodes)@.len(),
        forall|k: int|
            0 <= k < old(keys)@.len() ==> (#[trigger] old(keys)@[k])@
                == old(nodes).deep_view()[k].sort_key(),
        key@ == node.deep_view().sort_key(),
    ensures
        final(keys)@.len() == final(nodes)@.len(),
        forall|k: int|
            0 <= k < final(keys)@.len() ==> (#[trigger] final(keys)@[k])@
                == final(nodes).deep_view()[k].sort_key(),
        final(nodes).deep_view() == sorted_in(old(nodes).deep_view(), node.deep_view()),
{
    let ghost items = nodes.deep_view();
    let mut at: usize = keys.len();
    while at > 0 && str_lt(key.as_str(), keys[at - 1].as_str())
        invariant
            keys@ == old(keys)@,
            nodes@ == old(nodes)@,
            items == nodes.deep_view(),
            keys@.len() == nodes@.len(),
            forall|k: int|
                0 <= k < keys@.len() ==> (#[trigger] keys@[k])@ == items[k].sort_key(),
            at <= keys@.len(),
            forall|k: int| at <= k < items.len() ==> text_lt(key@, #[trigger] items[k].sort_key()),
        decreases at,
    {
        at -= 1;
    }
    proof {
        if at > 0 {
            assert(keys@[at - 1]@ == items[at - 1].sort_key());
        }
        lemma_sorted_place(items, key@, at as int);
    }
    keys.insert(at, key);
    nodes.insert(at, node);
    assert(nodes.deep_view() =~= items.insert(at as int, node.deep_view()));
}

/// Builds the entries of the level that `paths` make up below `prefix`.
pub fn build_tree_level(paths: &Vec<String>, prefix: &str) -> (nodes: Vec<TreeNode>)
    ensures
        nodes.deep_view() == tree_level(paths.deep_view(), prefix@),
    decreases weight(paths.deep_view()),
{
    let ghost all = paths.deep_view();
    let (groups, files) = split_level(paths);
    let ghost level = level_of(all);
    let mut keys: Vec<String> = Vec::new();
    let mut nodes: Vec<TreeNode> = Vec::new();
    assert(nodes.deep_view() =~= sorted_by_name(directories(all, prefix@, 0)));
    let mut i: usize = 0;
    while i < groups.len()
        invariant
            all == paths.deep_view(),
            level == level_of(all),
            branches_of(groups@) == level.branches,
            i <= groups@.len(),
            keys@.len() == nodes@.len(),
            forall|k: int|
                0 <= k < keys@.len() ==> (#[trigger] keys@[k])@ == nodes.deep_view()[k].sort_key(),
            nodes.deep_view() == sorted_by_name(directories(all, prefix@, i as int)),
        decreases groups@.len() - i,
    {
        let group = &groups[i];
        proof {
            assert(branches_of(groups@)[i as int] == group.branch());
            lemma_rests_weigh_less(all, i as int);
        }
        let below = join_under(prefix, group.name.as_str());
        let children = build_tree_level(&group.rests, below.as_str());
        let node = TreeNode::Directory { name: group.name.clone(), children };
        proof {
            assert(node.deep_view()->Directory_children =~= children.deep_view());
            let made = directories(all, prefix@, i + 1);
            assert(made.drop_last() =~= directories(all, prefix@, i as int));
            assert(made.last() == node.deep_view());
        }
        let key = to_lowercase(group.name.as_str());
        insert_sorted(&mut keys, &mut nodes, key, node);
        i += 1;
    }
    let ghost dirs = directories(all, prefix@, level.branches.len() as int);
    assert(dirs + documents(level.files.take(0), prefix@) =~= dirs);
    let mut j: usize = 0;
    while j < files.len()
        invariant
            level == level_of(all),
            files.deep_view() == level.files,
            dirs == directories(all, prefix@, level.branches.len() as int),
            j <= files@.len(),
            keys@.len() == nodes@.len(),
            forall|k: int|
                0 <= k < keys@.len() ==> (#[trigger] keys@[k])@ == nodes.deep_view()[k].sort_key(),
            nodes.deep_view() == sorted_by_name(
                dirs + documents(level.files.take(j as int), prefix@),
            ),
        decreases files@.len() - j,
    {
        let name = files[j].clone();
        let path = join_under(prefix, name.as_str());
        let key = to_lowercase(name.as_str());
        let node = TreeNode::File { name, path };
        proof {
            assert(files.deep_view()[j as int] == files@[j as int]@);
            let made = dirs + documents(level.files.take(j + 1), prefix@);
            assert(made.drop_last() =~= dirs + documents(level.files.take(j as int), prefix@));
            assert(made.last() == node.deep_view());
        }
        insert_sorted(&mut keys, &mut nodes, key, node);
        j += 1;
    }
    assert(level.files.take(j as int) =~= level.files);
    nodes
}

/// Builds the navigation tree for the documents with the keys `paths`:
/// directories and documents level by level, each level in the order of
/// the names in lower case.
pub fn build_file_tree(paths: &Vec<String>) -> (nodes: Vec<TreeNode>)
    ensures
        nodes.deep_view() == file_tree(paths.deep_view()),
{
    proof {
        reveal_strlit("");
        assert(""@ =~= Seq::<char>::empty());
    }
    build_tree_level(paths, "")
}

} // verus!
