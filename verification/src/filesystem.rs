//! The permissioned virtual filesystem: an owned tree of named nodes, each a
//! directory or a file, every operation gated by the permission record of the
//! node it touches. The ghost model of a node is `NodeView`, whose children
//! form a map from name to child view.
use vstd::prelude::*;
use crate::clock::now_unix_seconds;
use crate::permissions::{Permissions, PermissionsView, new_permissions_view};
use crate::strutil::str_eq;

verus! {

/// Whether a node is a directory or a file; the kind decides which of
/// `children` and `content` is meaningful.
#[derive(Debug, Clone, Copy, PartialEq, Eq, Structural)]
pub enum FileType {
    Directory,
    File,
}

/// A node of the virtual filesystem tree. A file's `children` is always
/// empty; a directory's `content` is always absent.
#[verifier::ext_equal]
#[derive(Debug)]
pub struct FileNode {
    pub name: String,
    pub file_type: FileType,
    pub content: Option<String>,
    pub children: Vec<FileNode>,
    pub permissions: Permissions,
    pub created_by: String,
    pub created_at: u64,
    pub modified_at: u64,
}

/// Ghost model of a node: children keyed by name.
#[verifier::ext_equal]
pub struct NodeView {
    pub name: Seq<char>,
    pub file_type: FileType,
    pub content: Option<Seq<char>>,
    pub children: Map<Seq<char>, NodeView>,
    pub permissions: PermissionsView,
    pub created_by: Seq<char>,
    pub created_at: u64,
    pub modified_at: u64,
}

/// Whether `n` has a direct child named `k`.
pub open spec fn has_child_name(n: FileNode, k: Seq<char>) -> bool {
    exists|i: int| 0 <= i < n.children@.len() && n.children@[i].name@ == k
}

/// The position of the child named `k` (meaningful under `wf`, which makes
/// names unique).
pub open spec fn child_index(n: FileNode, k: Seq<char>) -> int {
    choose|i: int| 0 <= i < n.children@.len() && n.children@[i].name@ == k
}

/// The ghost model of a node.
pub open spec fn node_view(n: FileNode) -> NodeView
    decreases n,
{
    NodeView {
        name: n.name@,
        file_type: n.file_type,
        content: n.content.deep_view(),
        children: Map::new(
            |k: Seq<char>| has_child_name(n, k),
            |k: Seq<char>|
                if has_child_name(n, k) {
                    node_view(n.children@[child_index(n, k)])
                } else {
                    arbitrary()
                },
        ),
        permissions: n.permissions@,
        created_by: n.created_by@,
        created_at: n.created_at,
        modified_at: n.modified_at,
    }
}

impl View for FileNode {
    type V = NodeView;

    open spec fn view(&self) -> NodeView {
        node_view(*self)
    }
}

impl FileNode {
    /// Well-formedness of the tree below this node: the kind of each node
    /// decides which attribute it carries, and sibling names are unique.
    pub open spec fn wf(self) -> bool
        decreases self,
    {
        &&& (self.file_type == FileType::File ==> self.children@.len() == 0)
        &&& (self.file_type == FileType::Directory ==> self.content is None)
        &&& (forall|i: int, j: int|
            0 <= i < j < self.children@.len() ==> self.children@[i].name@
                != self.children@[j].name@)
        &&& (forall|i: int| 0 <= i < self.children@.len() ==> (#[trigger] self.children@[i]).wf())
    }
}

/// The view of a directory node fresh from `new_directory_at`.
pub open spec fn new_directory_view(name: Seq<char>, owner: Seq<char>, now: u64) -> NodeView {
    NodeView {
        name: name,
        file_type: FileType::Directory,
        content: None,
        children: Map::empty(),
        permissions: new_permissions_view(owner),
        created_by: owner,
        created_at: now,
        modified_at: now,
    }
}

/// The view of a file node fresh from `new_file_at`.
pub open spec fn new_file_view(name: Seq<char>, content: Seq<char>, owner: Seq<char>, now: u64) -> NodeView {
    NodeView {
        name: name,
        file_type: FileType::File,
        content: Some(content),
        children: Map::empty(),
        permissions: new_permissions_view(owner),
        created_by: owner,
        created_at: now,
        modified_at: now,
    }
}

impl FileNode {
    /// A fresh empty directory stamped with the given creation time.
    pub fn new_directory_at(name: String, owner: String, now: u64) -> (r: FileNode)
        ensures
            r.wf(),
            r@ == new_directory_view(name@, owner@, now),
    {
        let r = FileNode {
            name,
            file_type: FileType::Directory,
            content: None,
            children: Vec::new(),
            permissions: Permissions::new(owner.clone()),
            created_by: owner,
            created_at: now,
            modified_at: now,
        };
        proof {
            assert(r@.children =~= Map::<Seq<char>, NodeView>::empty());
            assert(r@ =~= new_directory_view(r.name@, r.created_by@, now));
        }
        r
    }

    /// A fresh empty directory stamped with the current time.
    pub fn new_directory(name: String, owner: String) -> (r: FileNode)
        ensures
            r.wf(),
            r@ == new_directory_view(name@, owner@, r@.created_at),
    {
        let now = now_unix_seconds();
        Self::new_directory_at(name, owner, now)
    }

    /// A fresh file with the given content, stamped with the given creation
    /// time.
    pub fn new_file_at(name: String, content: String, owner: String, now: u64) -> (r: FileNode)
        ensures
            r.wf(),
            r@ == new_file_view(name@, content@, owner@, now),
    {
        let r = FileNode {
            name,
            file_type: FileType::File,
            content: Some(content),
            children: Vec::new(),
            permissions: Permissions::new(owner.clone()),
            created_by: owner,
            created_at: now,
            modified_at: now,
        };
        proof {
            assert(r@.children =~= Map::<Seq<char>, NodeView>::empty());
            assert(r@ =~= new_file_view(r.name@, r.content.deep_view()->Some_0, r.created_by@, now));
        }
        r
    }

    /// A fresh file stamped with the current time.
    pub fn new_file(name: String, content: String, owner: String) -> (r: FileNode)
        ensures
            r.wf(),
            r@ == new_file_view(name@, content@, owner@, r@.created_at),
    {
        let now = now_unix_seconds();
        Self::new_file_at(name, content, owner, now)
    }

    /// The direct child named `name`, when there is one.
    pub fn get_child(&self, name: &str) -> (r: Option<&FileNode>)
        requires
            self.wf(),
        ensures
            match r {
                Some(c) => {
                    &&& has_child_name(*self, name@)
                    &&& c.wf()
                    &&& (*c)@ == self@.children[name@]
                    &&& self@.children.dom().contains(name@)
                },
                None => !has_child_name(*self, name@) && !self@.children.dom().contains(name@),
            },
    {
        let n = self.children.len();
        let mut i: usize = 0;
        while i < n
            invariant
                0 <= i <= n,
                n == self.children@.len(),
                self.wf(),
                forall|j: int| 0 <= j < i ==> self.children@[j].name@ != name@,
            decreases n - i,
        {
            if str_eq(self.children[i].name.as_str(), name) {
                proof {
                    lemma_child_lookup(*self, name@, i as int);
                }
                return Some(&self.children[i]);
            }
            i += 1;
        }
        None
    }
}

/// Under `wf`, position `i` holding a child named `k` pins `child_index` and
/// the view of the child.
pub proof fn lemma_child_lookup(n: FileNode, k: Seq<char>, i: int)
    requires
        n.wf(),
        0 <= i < n.children@.len(),
        n.children@[i].name@ == k,
    ensures
        has_child_name(n, k),
        child_index(n, k) == i,
        n@.children.dom().contains(k),
        n@.children[k] == n.children@[i]@,
        n.children@[i].wf(),
{
    assert(has_child_name(n, k));
    let ci = child_index(n, k);
    assert(0 <= ci < n.children@.len() && n.children@[ci].name@ == k);
    if ci != i {
        assert(n.children@[ci].name@ != n.children@[i].name@);
    }
}

} // verus!

verus! {

/// Unchanged children leave the children map of the view unchanged, whatever
/// happened to the other fields.
pub proof fn lemma_same_children(n: FileNode, n2: FileNode)
    requires
        n.wf(),
        n2.children == n.children,
    ensures
        n2@.children == n@.children,
{
    assert forall|k: Seq<char>| #[trigger] n2@.children.dom().contains(k) implies n@.children.dom().contains(k)
        && n2@.children[k] == n@.children[k] by {
        let j = child_index(n2, k);
        assert(0 <= j < n2.children@.len() && n2.children@[j].name@ == k);
        lemma_child_lookup(n, k, j);
        assert(node_view(n2.children@[child_index(n2, k)]) == node_view(n.children@[j]));
    }
    assert forall|k: Seq<char>| #[trigger] n@.children.dom().contains(k) implies n2@.children.dom().contains(k) by {
        let j = child_index(n, k);
        assert(n2.children@[j].name@ == k);
    }
    assert(n2@.children =~= n@.children);
}

/// Replacing the child at position `i` by a well-formed child of the same
/// name updates the children map at that name.
pub proof fn lemma_children_update(n: FileNode, n2: FileNode, i: int, c2: FileNode)
    requires
        n.wf(),
        0 <= i < n.children@.len(),
        c2.wf(),
        c2.name@ == n.children@[i].name@,
        n2.children@ == n.children@.update(i, c2),
        n2.name == n.name,
        n2.file_type == n.file_type,
        n2.content == n.content,
        n2.permissions == n.permissions,
        n2.created_by == n.created_by,
        n2.created_at == n.created_at,
    ensures
        n2.wf(),
        n2@ == (NodeView { children: n@.children.insert(c2.name@, c2@), modified_at: n2.modified_at, ..n@ }),
{
    let key = c2.name@;
    assert(n.file_type == FileType::Directory);
    assert(forall|j: int|
        0 <= j < n2.children@.len() ==> (#[trigger] n2.children@[j]).name@ == n.children@[j].name@);
    assert forall|a: int| 0 <= a < n2.children@.len() implies (#[trigger] n2.children@[a]).wf() by {
        if a != i {
            assert(n2.children@[a] == n.children@[a]);
        }
    }
    assert(n2.wf());
    let m1 = n2@.children;
    let m2 = n@.children.insert(key, c2@);
    assert forall|k: Seq<char>| #[trigger] m1.dom().contains(k) implies m2.dom().contains(k) && m1[k]
        == m2[k] by {
        let j = child_index(n2, k);
        assert(0 <= j < n2.children@.len() && n2.children@[j].name@ == k);
        if k == key {
            lemma_child_lookup(n2, k, i);
            assert(m1[k] == c2@);
        } else {
            assert(j != i);
            assert(n.children@[j].name@ == k);
            lemma_child_lookup(n, k, j);
            lemma_child_lookup(n2, k, j);
            assert(m1[k] == n2.children@[j]@ && m2[k] == n.children@[j]@);
            assert(n2.children@[j] == n.children@[j]);
        }
    }
    assert forall|k: Seq<char>| #[trigger] m2.dom().contains(k) implies m1.dom().contains(k) by {
        if k == key {
            assert(n2.children@[i].name@ == key);
            assert(has_child_name(n2, k));
        } else {
            let j = child_index(n, k);
            assert(0 <= j < n.children@.len() && n.children@[j].name@ == k);
            assert(j != i);
            assert(n2.children@[j].name@ == k);
            assert(has_child_name(n2, k));
        }
    }
    assert(m1 =~= m2);
    assert(n2@ =~= (NodeView { children: m2, modified_at: n2.modified_at, ..n@ }));
}

/// Appending a well-formed child with a fresh name inserts it into the
/// children map.
pub proof fn lemma_children_push(n: FileNode, n2: FileNode, c: FileNode)
    requires
        n.wf(),
        n.file_type == FileType::Directory,
        c.wf(),
        !has_child_name(n, c.name@),
        n2.children@ == n.children@.push(c),
        n2.name == n.name,
        n2.file_type == n.file_type,
        n2.content == n.content,
        n2.permissions == n.permissions,
        n2.created_by == n.created_by,
        n2.created_at == n.created_at,
    ensures
        n2.wf(),
        n2@ == (NodeView { children: n@.children.insert(c.name@, c@), modified_at: n2.modified_at, ..n@ }),
{
    let key = c.name@;
    let len = n.children@.len();
    assert(forall|j: int| 0 <= j < len ==> (#[trigger] n2.children@[j]) == n.children@[j]);
    assert(n2.children@[len as int] == c);
    assert forall|a: int, b: int| 0 <= a < b < n2.children@.len() implies n2.children@[a].name@
        != n2.children@[b].name@ by {
        if b == len {
            assert(n2.children@[a].name@ == n.children@[a].name@);
            if n.children@[a].name@ == key {
                assert(has_child_name(n, key));
            }
        }
    }
    assert forall|a: int| 0 <= a < n2.children@.len() implies (#[trigger] n2.children@[a]).wf() by {
        if a < len {
            assert(n2.children@[a] == n.children@[a]);
        }
    }
    assert(n2.wf());
    let m1 = n2@.children;
    let m2 = n@.children.insert(key, c@);
    assert forall|k: Seq<char>| #[trigger] m1.dom().contains(k) implies m2.dom().contains(k) && m1[k]
        == m2[k] by {
        let j = child_index(n2, k);
        assert(0 <= j < n2.children@.len() && n2.children@[j].name@ == k);
        if k == key {
            lemma_child_lookup(n2, k, len as int);
            assert(m1[k] == c@);
        } else {
            assert(j != len);
            assert(n.children@[j].name@ == k);
            lemma_child_lookup(n, k, j);
            lemma_child_lookup(n2, k, j);
        }
    }
    assert forall|k: Seq<char>| #[trigger] m2.dom().contains(k) implies m1.dom().contains(k) by {
        if k == key {
            assert(n2.children@[len as int].name@ == key);
            assert(has_child_name(n2, k));
        } else {
            let j = child_index(n, k);
            assert(n2.children@[j].name@ == k);
            assert(has_child_name(n2, k));
        }
    }
    assert(m1 =~= m2);
    assert(n2@ =~= (NodeView { children: m2, modified_at: n2.modified_at, ..n@ }));
}

/// Removing the child at position `i` removes its name from the children
/// map.
pub proof fn lemma_children_remove(n: FileNode, n2: FileNode, i: int)
    requires
        n.wf(),
        0 <= i < n.children@.len(),
        n2.children@ == n.children@.remove(i),
        n2.name == n.name,
        n2.file_type == n.file_type,
        n2.content == n.content,
        n2.permissions == n.permissions,
        n2.created_by == n.created_by,
        n2.created_at == n.created_at,
    ensures
        n2.wf(),
        n2@ == (NodeView { children: n@.children.remove(n.children@[i].name@), modified_at: n2.modified_at, ..n@ }),
{
    let key = n.children@[i].name@;
    let len = n.children@.len();
    assert(n2.children@.len() == len - 1);
    assert(forall|j: int|
        0 <= j < len - 1 ==> (#[trigger] n2.children@[j]) == n.children@[
            if j < i {
                j
            } else {
                j + 1
            }
        ]);
    assert forall|a: int, b: int| 0 <= a < b < n2.children@.len() implies n2.children@[a].name@
        != n2.children@[b].name@ by {
        let a2: int = if a < i { a } else { a + 1 };
        let b2: int = if b < i { b } else { b + 1 };
        assert(n.children@[a2].name@ != n.children@[b2].name@);
    }
    assert forall|a: int| 0 <= a < n2.children@.len() implies (#[trigger] n2.children@[a]).wf() by {
        let a2: int = if a < i { a } else { a + 1 };
        assert(n2.children@[a] == n.children@[a2]);
    }
    assert(n2.wf());
    let m1 = n2@.children;
    let m2 = n@.children.remove(key);
    assert forall|k: Seq<char>| #[trigger] m1.dom().contains(k) implies m2.dom().contains(k) && m1[k]
        == m2[k] by {
        let j = child_index(n2, k);
        assert(0 <= j < n2.children@.len() && n2.children@[j].name@ == k);
        let j2: int = if j < i { j } else { j + 1 };
        assert(n.children@[j2].name@ == k);
        assert(j2 != i);
        assert(k != key);
        lemma_child_lookup(n, k, j2);
        lemma_child_lookup(n2, k, j);
        assert(m1[k] == n2.children@[j]@ && m2[k] == n.children@[j2]@);
    }
    assert forall|k: Seq<char>| #[trigger] m2.dom().contains(k) implies m1.dom().contains(k) by {
        let j = child_index(n, k);
        assert(0 <= j < len && n.children@[j].name@ == k);
        assert(k != key);
        assert(j != i);
        let j2: int = if j < i { j } else { j - 1 };
        assert(n2.children@[j2].name@ == k);
        assert(has_child_name(n2, k));
    }
    assert(m1 =~= m2);
    assert(n2@ =~= (NodeView { children: m2, modified_at: n2.modified_at, ..n@ }));
}

} // verus!

verus! {

pub open spec fn msg_cannot_add_to_file() -> Seq<char> {
    "Cannot add children to a file"@
}

pub open spec fn msg_cannot_set_content_on_directory() -> Seq<char> {
    "Cannot set content on a directory"@
}

impl FileNode {
    /// Finds the position of the direct child named `name`.
    fn child_position(&self, name: &str) -> (r: Option<usize>)
        requires
            self.wf(),
        ensures
            match r {
                Some(i) => i < self.children@.len() && self.children@[i as int].name@ == name@
                    && child_index(*self, name@) == i && has_child_name(*self, name@),
                None => !has_child_name(*self, name@),
            },
    {
        let n = self.children.len();
        let mut i: usize = 0;
        while i < n
            invariant
                0 <= i <= n,
                n == self.children@.len(),
                self.wf(),
                forall|j: int| 0 <= j < i ==> self.children@[j].name@ != name@,
            decreases n - i,
        {
            if str_eq(self.children[i].name.as_str(), name) {
                proof {
                    lemma_child_lookup(*self, name@, i as int);
                }
                return Some(i);
            }
            i += 1;
        }
        None
    }

    /// Attaches `child` under this directory at the given time, replacing any
    /// existing child of the same name, and freshens this node's modification
    /// time.
    pub fn add_child_at(&mut self, child: FileNode, now: u64) -> (r: Result<(), String>)
        requires
            old(self).wf(),
            child.wf(),
        ensures
            final(self).wf(),
            match r {
                Ok(()) => old(self).file_type == FileType::Directory && final(self)@ == (NodeView {
                    children: old(self)@.children.insert(child@.name, child@),
                    modified_at: now,
                    ..old(self)@
                }),
                Err(e) => old(self).file_type != FileType::Directory && *final(self) == *old(self)
                    && e@ == msg_cannot_add_to_file(),
            },
    {
        if !matches!(self.file_type, FileType::Directory) {
            return Err("Cannot add children to a file".to_owned());
        }
        let ghost pre = *self;
        match self.child_position(child.name.as_str()) {
            Some(i) => {
                let ghost c_old = self.children@[i as int];
                self.children[i] = child;
                self.modified_at = now;
                proof {
                    assert(self.children@ == pre.children@.update(i as int, self.children@[i as int]));
                    lemma_children_update(pre, *self, i as int, self.children@[i as int]);
                }
            },
            None => {
                self.children.push(child);
                self.modified_at = now;
                proof {
                    let c = self.children@.last();
                    assert(self.children@ == pre.children@.push(c));
                    lemma_children_push(pre, *self, c);
                }
            },
        }
        Ok(())
    }

    /// Attaches `child`, stamping this node's modification time with the
    /// current time.
    pub fn add_child(&mut self, child: FileNode) -> (r: Result<(), String>)
        requires
            old(self).wf(),
            child.wf(),
        ensures
            final(self).wf(),
            match r {
                Ok(()) => old(self).file_type == FileType::Directory && final(self)@
                    == (NodeView {
                    children: old(self)@.children.insert(child@.name, child@),
                    modified_at: final(self)@.modified_at,
                    ..old(self)@
                }),
                Err(e) => old(self).file_type != FileType::Directory && *final(self) == *old(self)
                    && e@ == msg_cannot_add_to_file(),
            },
    {
        let now = now_unix_seconds();
        self.add_child_at(child, now)
    }

    /// Replaces the content of this file node at the given time.
    pub fn update_content_at(&mut self, content: String, now: u64) -> (r: Result<(), String>)
        requires
            old(self).wf(),
        ensures
            final(self).wf(),
            match r {
                Ok(()) => old(self).file_type == FileType::File && final(self)@ == (NodeView {
                    content: Some(content@),
                    modified_at: now,
                    ..old(self)@
                }),
                Err(e) => old(self).file_type != FileType::File && *final(self) == *old(self)
                    && e@ == msg_cannot_set_content_on_directory(),
            },
    {
        if !matches!(self.file_type, FileType::File) {
            return Err("Cannot set content on a directory".to_owned());
        }
        let ghost pre = *self;
        self.content = Some(content);
        self.modified_at = now;
        proof {
            lemma_same_children(pre, *self);
            assert(final(self)@ =~= (NodeView {
                content: final(self).content.deep_view(),
                modified_at: now,
                ..old(self)@
            }));
        }
        Ok(())
    }

    /// Replaces the content of this file node, stamping the current time.
    pub fn update_content(&mut self, content: String) -> (r: Result<(), String>)
        requires
            old(self).wf(),
        ensures
            final(self).wf(),
            match r {
                Ok(()) => old(self).file_type == FileType::File && final(self)@ == (NodeView {
                    content: Some(content@),
                    modified_at: final(self)@.modified_at,
                    ..old(self)@
                }),
                Err(e) => old(self).file_type != FileType::File && *final(self) == *old(self)
                    && e@ == msg_cannot_set_content_on_directory(),
            },
    {
        let now = now_unix_seconds();
        self.update_content_at(content, now)
    }

    /// A mutable borrow of the direct child named `name`. The caller sees
    /// exactly which position changed: every other field and sibling keeps
    /// its value.
    pub fn get_child_mut(&mut self, name: &str) -> (r: Option<&mut FileNode>)
        requires
            old(self).wf(),
        ensures
            match r {
                Some(c) => {
                    &&& has_child_name(*old(self), name@)
                    &&& *c == old(self).children@[child_index(*old(self), name@)]
                    &&& final(self).children@ == old(self).children@.update(
                        child_index(*old(self), name@),
                        *final(c),
                    )
                    &&& final(self).name == old(self).name
                    &&& final(self).file_type == old(self).file_type
                    &&& final(self).content == old(self).content
                    &&& final(self).permissions == old(self).permissions
                    &&& final(self).created_by == old(self).created_by
                    &&& final(self).created_at == old(self).created_at
                    &&& final(self).modified_at == old(self).modified_at
                },
                None => !has_child_name(*old(self), name@) && *final(self) == *old(self),
            },
    {
        let pos = self.child_position(name);
        match pos {
            Some(i) => Some(&mut self.children[i]),
            None => None,
        }
    }

    /// The entry a directory listing shows for a child: its name, with `/`
    /// appended when the child is a directory.
    pub open spec fn child_entry(c: FileNode) -> Seq<char> {
        if c.file_type == FileType::Directory {
            c.name@ + seq!['/']
        } else {
            c.name@
        }
    }

    /// The listing entries of this node's children, in tree order.
    pub open spec fn listing_entries(self) -> Seq<Seq<char>> {
        self.children@.map_values(|c: FileNode| FileNode::child_entry(c))
    }

    /// The names of the direct children, each suffixed with `/` when it names
    /// a directory, sorted lexicographically.
    pub fn list_children(&self) -> (r: Vec<String>)
        requires
            self.wf(),
        ensures
            crate::strutil::lex_sorted(r.deep_view()),
            r.deep_view().to_multiset() == self.listing_entries().to_multiset(),
            r@.len() == self.children@.len(),
    {
        proof {
            reveal_strlit("/");
        }
        let n = self.children.len();
        let mut entries: Vec<String> = Vec::new();
        let mut i: usize = 0;
        proof {
            assert(entries.deep_view() =~= self.listing_entries().take(0));
        }
        while i < n
            invariant
                0 <= i <= n,
                n == self.children@.len(),
                entries.deep_view() == self.listing_entries().take(i as int),
            decreases n - i,
        {
            let ghost pre = entries.deep_view();
            let child = &self.children[i];
            let entry = if matches!(child.file_type, FileType::Directory) {
                child.name.clone().concat("/")
            } else {
                child.name.clone()
            };
            proof {
                assert(entry@ == FileNode::child_entry(self.children@[i as int])) by {
                    reveal_strlit("/");
                    assert(("/")@ =~= seq!['/']);
                }
            }
            entries.push(entry);
            proof {
                assert(entries.deep_view() =~= pre.push(FileNode::child_entry(
                    self.children@[i as int],
                )));
                assert(entries.deep_view() =~= self.listing_entries().take(i + 1));
            }
            i += 1;
        }
        proof {
            assert(self.listing_entries().take(n as int) =~= self.listing_entries());
        }
        crate::strutil::sort_strings(entries)
    }
}

} // verus!

verus! {

/// Resolution of canonical segments against a node view: each segment must
/// name a child of the node reached so far. A file has no children, so
/// descending into a file fails like a missing name.
pub open spec fn resolve_view(v: NodeView, segs: Seq<Seq<char>>) -> Option<NodeView>
    decreases segs.len(),
{
    if segs.len() == 0 {
        Some(v)
    } else if v.children.dom().contains(segs[0]) {
        resolve_view(v.children[segs[0]], segs.drop_first())
    } else {
        None
    }
}

/// The tree with `c` attached (inserted or replaced) under the directory at
/// `segs`, whose modification time becomes `now`.
pub open spec fn attach_view(v: NodeView, segs: Seq<Seq<char>>, c: NodeView, now: u64) -> NodeView
    decreases segs.len(),
{
    if segs.len() == 0 {
        NodeView { children: v.children.insert(c.name, c), modified_at: now, ..v }
    } else {
        NodeView {
            children: v.children.insert(
                segs[0],
                attach_view(v.children[segs[0]], segs.drop_first(), c, now),
            ),
            ..v
        }
    }
}

/// The tree with the child named `leaf` removed from the directory at
/// `segs`, whose modification time becomes `now`.
pub open spec fn detach_view(v: NodeView, segs: Seq<Seq<char>>, leaf: Seq<char>, now: u64) -> NodeView
    decreases segs.len(),
{
    if segs.len() == 0 {
        NodeView { children: v.children.remove(leaf), modified_at: now, ..v }
    } else {
        NodeView {
            children: v.children.insert(
                segs[0],
                detach_view(v.children[segs[0]], segs.drop_first(), leaf, now),
            ),
            ..v
        }
    }
}

/// The tree with the node at `segs` replaced by `c`, which carries the same
/// name.
pub open spec fn replace_view(v: NodeView, segs: Seq<Seq<char>>, c: NodeView) -> NodeView
    decreases segs.len(),
{
    if segs.len() == 0 {
        c
    } else {
        NodeView {
            children: v.children.insert(
                segs[0],
                replace_view(v.children[segs[0]], segs.drop_first(), c),
            ),
            ..v
        }
    }
}

/// The absolute path string that renders a list of canonical segments.
pub open spec fn path_str(segs: Seq<Seq<char>>) -> Seq<char> {
    seq!['/'] + crate::strutil::join_with(segs, seq!['/'])
}

pub open spec fn msg_cannot_create_root() -> Seq<char> {
    "Cannot create root directory"@
}

pub open spec fn msg_cannot_remove_root() -> Seq<char> {
    "Cannot remove root directory"@
}

pub open spec fn msg_parent_not_found(parent: Seq<Seq<char>>) -> Seq<char> {
    "Parent directory not found: "@ + path_str(parent)
}

pub open spec fn msg_permission_denied_parent() -> Seq<char> {
    "Permission denied: cannot write to parent directory"@
}

pub open spec fn msg_directory_exists() -> Seq<char> {
    "Directory already exists"@
}

pub open spec fn msg_not_found(path: Seq<char>) -> Seq<char> {
    "File or directory not found: "@ + path
}

pub open spec fn msg_permission_denied_remove() -> Seq<char> {
    "Permission denied: cannot remove item"@
}

/// The filesystem: a single rooted tree. The root is a directory owned by
/// the system identity, created once and never replaced or removed.
#[derive(Debug)]
pub struct FileSystem {
    pub root: FileNode,
}

impl FileSystem {
    /// Well-formedness: the root is a well-formed directory tree.
    pub open spec fn wf(self) -> bool {
        self.root.wf()
    }

    pub fn new(owner: String) -> (r: FileSystem)
        ensures
            r.wf(),
            r.root@ == new_directory_view("/"@, owner@, r.root@.created_at),
            r.root.file_type == FileType::Directory,
    {
        FileSystem { root: FileNode::new_directory("/".to_owned(), owner) }
    }

    /// Resolves the first `upto` of the given canonical segments.
    fn resolve_segments<'a>(&'a self, segs: &Vec<String>, upto: usize) -> (r: Option<&'a FileNode>)
        requires
            self.wf(),
            upto <= segs@.len(),
        ensures
            match r {
                Some(n) => n.wf() && resolve_view(self.root@, segs.deep_view().take(upto as int))
                    == Some((*n)@),
                None => resolve_view(self.root@, segs.deep_view().take(upto as int)) is None,
            },
    {
        let ghost target = segs.deep_view().take(upto as int);
        let mut current: &FileNode = &self.root;
        let mut i: usize = 0;
        proof {
            assert(target.skip(0) =~= target);
        }
        while i < upto
            invariant
                0 <= i <= upto,
                upto <= segs@.len(),
                target == segs.deep_view().take(upto as int),
                current.wf(),
                resolve_view(self.root@, target) == resolve_view(current@, target.skip(i as int)),
            decreases upto - i,
        {
            let ghost rem = target.skip(i as int);
            proof {
                assert(rem.len() > 0);
                assert(rem[0] == segs.deep_view()[i as int]);
            }
            match current.get_child(segs[i].as_str()) {
                Some(c) => {
                    proof {
                        assert(resolve_view(current@, rem) == resolve_view(
                            current@.children[rem[0]],
                            rem.drop_first(),
                        ));
                        assert(rem.drop_first() =~= target.skip(i + 1));
                    }
                    current = c;
                },
                None => {
                    proof {
                        assert(resolve_view(current@, rem) is None);
                    }
                    return None;
                },
            }
            i += 1;
        }
        proof {
            assert(target.skip(upto as int) =~= Seq::<Seq<char>>::empty());
        }
        Some(current)
    }

    /// Resolves an absolute path. `/` resolves to the root; empty segments
    /// are skipped; the walk fails the moment a segment does not name a
    /// child of the node reached so far.
    pub fn resolve_path(&self, path: &str) -> (r: Option<&FileNode>)
        requires
            self.wf(),
        ensures
            match r {
                Some(n) => n.wf() && resolve_view(self.root@, crate::paths::canon_segments(path@))
                    == Some((*n)@),
                None => resolve_view(self.root@, crate::paths::canon_segments(path@)) is None,
            },
    {
        let segs = crate::paths::split_path(path);
        let n = segs.len();
        let r = self.resolve_segments(&segs, n);
        proof {
            assert(segs.deep_view().take(n as int) =~= crate::paths::canon_segments(path@));
        }
        r
    }
}

} // verus!

verus! {

/// Attaches `child` under the directory reached by `segs[i..]` from `node`,
/// replacing an existing child of the same name; only that directory's
/// modification time changes.
fn attach_at(node: &mut FileNode, segs: &Vec<String>, i: usize, child: FileNode, now: u64)
    requires
        old(node).wf(),
        child.wf(),
        i <= segs@.len(),
        ({
            let t = resolve_view(old(node)@, segs.deep_view().skip(i as int));
            t is Some && t->Some_0.file_type == FileType::Directory
        }),
    ensures
        final(node).wf(),
        final(node)@ == attach_view(old(node)@, segs.deep_view().skip(i as int), child@, now),
        final(node)@.name == old(node)@.name,
    decreases segs@.len() - i,
{
    let ghost rem = segs.deep_view().skip(i as int);
    if i == segs.len() {
        proof {
            assert(rem.len() == 0);
            assert(resolve_view(old(node)@, rem) == Some(old(node)@));
        }
        let r = node.add_child_at(child, now);
        proof {
            assert(r is Ok);
        }
    } else {
        proof {
            assert(rem.len() > 0);
            assert(rem[0] == segs.deep_view()[i as int]);
            assert(old(node)@.children.dom().contains(rem[0]));
        }
        let pos = match node.child_position(segs[i].as_str()) {
            Some(p) => p,
            None => {
                proof {
                    assert(has_child_name(*node, segs.deep_view()[i as int]));
                }
                vstd::pervasive::unreached()
            },
        };
        let ghost pre = *node;
        let ghost child_pre = node.children@[pos as int];
        proof {
            lemma_child_lookup(pre, segs.deep_view()[i as int], pos as int);
            assert(resolve_view(pre@, rem) == resolve_view(child_pre@, rem.drop_first()));
            assert(rem.drop_first() =~= segs.deep_view().skip(i + 1));
        }
        attach_at(&mut node.children[pos], segs, i + 1, child, now);
        proof {
            let c2 = node.children@[pos as int];
            assert(node.children@ == pre.children@.update(pos as int, c2));
            assert(c2@ == attach_view(child_pre@, segs.deep_view().skip(i + 1), child@, now));
            assert(c2@.name == child_pre@.name);
            assert(c2.name@ == pre.children@[pos as int].name@);
            lemma_children_update(pre, *node, pos as int, c2);
            assert(node@ =~= attach_view(pre@, rem, child@, now));
        }
    }
}

/// Removes the child named `leaf` from the directory reached by `segs[i..]`
/// from `node`; only that directory's modification time changes.
fn detach_at(node: &mut FileNode, segs: &Vec<String>, i: usize, leaf: &String, now: u64)
    requires
        old(node).wf(),
        i <= segs@.len(),
        ({
            let t = resolve_view(old(node)@, segs.deep_view().skip(i as int));
            t is Some && t->Some_0.children.dom().contains(leaf@)
        }),
    ensures
        final(node).wf(),
        final(node)@ == detach_view(old(node)@, segs.deep_view().skip(i as int), leaf@, now),
        final(node)@.name == old(node)@.name,
    decreases segs@.len() - i,
{
    let ghost rem = segs.deep_view().skip(i as int);
    if i == segs.len() {
        proof {
            assert(rem.len() == 0);
            assert(resolve_view(old(node)@, rem) == Some(old(node)@));
        }
        let pos = match node.child_position(leaf.as_str()) {
            Some(p) => p,
            None => {
                proof {
                    assert(has_child_name(*node, leaf@));
                }
                vstd::pervasive::unreached()
            },
        };
        let ghost pre = *node;
        proof {
            lemma_child_lookup(pre, leaf@, pos as int);
        }
        remove_child_entry(node, pos);
        stamp_modified(node, now);
        proof {
            assert(node.children@ == pre.children@.remove(pos as int));
            lemma_children_remove(pre, *node, pos as int);
            assert(node@ =~= detach_view(pre@, rem, leaf@, now));
        }
    } else {
        proof {
            assert(rem.len() > 0);
            assert(rem[0] == segs.deep_view()[i as int]);
            assert(old(node)@.children.dom().contains(rem[0]));
        }
        let pos = match node.child_position(segs[i].as_str()) {
            Some(p) => p,
            None => {
                proof {
                    assert(has_child_name(*node, segs.deep_view()[i as int]));
                }
                vstd::pervasive::unreached()
            },
        };
        let ghost pre = *node;
        let ghost child_pre = node.children@[pos as int];
        proof {
            lemma_child_lookup(pre, segs.deep_view()[i as int], pos as int);
            assert(resolve_view(pre@, rem) == resolve_view(child_pre@, rem.drop_first()));
            assert(rem.drop_first() =~= segs.deep_view().skip(i + 1));
        }
        detach_at(&mut node.children[pos], segs, i + 1, leaf, now);
        proof {
            let c2 = node.children@[pos as int];
            assert(node.children@ == pre.children@.update(pos as int, c2));
            assert(c2@ == detach_view(child_pre@, segs.deep_view().skip(i + 1), leaf@, now));
            assert(c2.name@ == pre.children@[pos as int].name@);
            lemma_children_update(pre, *node, pos as int, c2);
            assert(node@ =~= detach_view(pre@, rem, leaf@, now));
        }
    }
}

/// Removes the child at `pos`, shifting later children down.
fn remove_child_entry(node: &mut FileNode, pos: usize)
    requires
        pos < old(node).children@.len(),
    ensures
        final(node).children@ == old(node).children@.remove(pos as int),
        final(node).name == old(node).name,
        final(node).file_type == old(node).file_type,
        final(node).content == old(node).content,
        final(node).permissions == old(node).permissions,
        final(node).created_by == old(node).created_by,
        final(node).created_at == old(node).created_at,
        final(node).modified_at == old(node).modified_at,
{
    let _ = node.children.remove(pos);
}

/// Freshens a node's modification time.
fn stamp_modified(node: &mut FileNode, now: u64)
    ensures
        *final(node) == (FileNode { modified_at: now, ..*old(node) }),
{
    node.modified_at = now;
}

} // verus!

verus! {

impl FileSystem {
    /// Creates a directory at `path` on behalf of `owner`, at time `now`.
    /// Fails when the path is the root, the parent does not resolve, the
    /// actor may not write the parent, a child of that name already exists,
    /// or the parent is a file; a failed call leaves the tree untouched.
    pub fn create_directory_at(&mut self, path: &str, owner: String, now: u64) -> (r: Result<
        (),
        String,
    >)
        requires
            old(self).wf(),
        ensures
            final(self).wf(),
            ({
                let segs = crate::paths::canon_segments(path@);
                let parent = segs.drop_last();
                let leaf = segs.last();
                if segs.len() == 0 {
                    r matches Err(e) && e@ == msg_cannot_create_root() && *final(self) == *old(self)
                } else {
                    match resolve_view(old(self).root@, parent) {
                        Option::None => r matches Err(e) && e@ == msg_parent_not_found(parent)
                            && *final(self) == *old(self),
                        Option::Some(p) => if !p.permissions.allows_write(owner@) {
                            r matches Err(e) && e@ == msg_permission_denied_parent() && *final(self)
                                == *old(self)
                        } else if p.children.dom().contains(leaf) {
                            r matches Err(e) && e@ == msg_directory_exists() && *final(self)
                                == *old(self)
                        } else if p.file_type != FileType::Directory {
                            r matches Err(e) && e@ == msg_cannot_add_to_file() && *final(self)
                                == *old(self)
                        } else {
                            r is Ok && final(self).root@ == attach_view(
                                old(self).root@,
                                parent,
                                new_directory_view(leaf, owner@, now),
                                now,
                            )
                        },
                    }
                }
            }),
    {
        let mut segs = crate::paths::split_path(path);
        let ghost whole = segs.deep_view();
        let leaf = match segs.pop() {
            Some(l) => l,
            None => {
                return Err("Cannot create root directory".to_owned());
            },
        };
        proof {
            assert(segs.deep_view() =~= whole.drop_last());
            assert(leaf@ == whole.last());
        }
        let upto = segs.len();
        match self.resolve_segments(&segs, upto) {
            None => {
                proof {
                    assert(segs.deep_view().take(upto as int) =~= whole.drop_last());
                }
                let msg = "Parent directory not found: ".to_owned();
                let rendered = crate::paths::render_path(&segs);
                return Err(msg.concat(rendered.as_str()));
            },
            Some(parent) => {
                proof {
                    assert(segs.deep_view().take(upto as int) =~= whole.drop_last());
                }
                if !parent.permissions.can_write(owner.as_str()) {
                    return Err("Permission denied: cannot write to parent directory".to_owned());
                }
                if let Some(_) = parent.child_position(leaf.as_str()) {
                    proof {
                        lemma_child_lookup(*parent, leaf@, child_index(*parent, leaf@));
                    }
                    return Err("Directory already exists".to_owned());
                }
                if !matches!(parent.file_type, FileType::Directory) {
                    return Err("Cannot add children to a file".to_owned());
                }
                let node = FileNode::new_directory_at(leaf, owner, now);
                proof {
                    assert(segs.deep_view().skip(0) =~= segs.deep_view());
                }
                attach_at(&mut self.root, &segs, 0, node, now);
                Ok(())
            },
        }
    }

    /// Creates a directory at `path` on behalf of `owner`, stamped with the
    /// current time.
    pub fn create_directory(&mut self, path: &str, owner: String) -> (r: Result<(), String>)
        requires
            old(self).wf(),
        ensures
            final(self).wf(),
            ({
                let segs = crate::paths::canon_segments(path@);
                let parent = segs.drop_last();
                let leaf = segs.last();
                if segs.len() == 0 {
                    r matches Err(e) && e@ == msg_cannot_create_root() && *final(self) == *old(self)
                } else {
                    match resolve_view(old(self).root@, parent) {
                        Option::None => r matches Err(e) && e@ == msg_parent_not_found(parent)
                            && *final(self) == *old(self),
                        Option::Some(p) => if !p.permissions.allows_write(owner@) {
                            r matches Err(e) && e@ == msg_permission_denied_parent() && *final(self)
                                == *old(self)
                        } else if p.children.dom().contains(leaf) {
                            r matches Err(e) && e@ == msg_directory_exists() && *final(self)
                                == *old(self)
                        } else if p.file_type != FileType::Directory {
                            r matches Err(e) && e@ == msg_cannot_add_to_file() && *final(self)
                                == *old(self)
                        } else {
                            r is Ok && (exists|now: u64|
                                final(self).root@ == attach_view(
                                    old(self).root@,
                                    parent,
                                    new_directory_view(leaf, owner@, now),
                                    now,
                                ))
                        },
                    }
                }
            }),
    {
        let now = now_unix_seconds();
        self.create_directory_at(path, owner, now)
    }

    /// Creates or overwrites the file at `path` with `content` on behalf of
    /// `owner`, at time `now`. Unlike `create_directory_at`, an existing
    /// child of the same name is silently replaced.
    pub fn create_file_at(&mut self, path: &str, content: String, owner: String, now: u64) -> (r:
        Result<(), String>)
        requires
            old(self).wf(),
        ensures
            final(self).wf(),
            ({
                let segs = crate::paths::canon_segments(path@);
                let parent = segs.drop_last();
                let leaf = segs.last();
                if segs.len() == 0 {
                    r matches Err(e) && e@ == msg_cannot_create_root() && *final(self) == *old(self)
                } else {
                    match resolve_view(old(self).root@, parent) {
                        Option::None => r matches Err(e) && e@ == msg_parent_not_found(parent)
                            && *final(self) == *old(self),
                        Option::Some(p) => if !p.permissions.allows_write(owner@) {
                            r matches Err(e) && e@ == msg_permission_denied_parent() && *final(self)
                                == *old(self)
                        } else if p.file_type != FileType::Directory {
                            r matches Err(e) && e@ == msg_cannot_add_to_file() && *final(self)
                                == *old(self)
                        } else {
                            r is Ok && final(self).root@ == attach_view(
                                old(self).root@,
                                parent,
                                new_file_view(leaf, content@, owner@, now),
                                now,
                            )
                        },
                    }
                }
            }),
    {
        let mut segs = crate::paths::split_path(path);
        let ghost whole = segs.deep_view();
        let leaf = match segs.pop() {
            Some(l) => l,
            None => {
                return Err("Cannot create root directory".to_owned());
            },
        };
        proof {
            assert(segs.deep_view() =~= whole.drop_last());
            assert(leaf@ == whole.last());
        }
        let upto = segs.len();
        match self.resolve_segments(&segs, upto) {
            None => {
                proof {
                    assert(segs.deep_view().take(upto as int) =~= whole.drop_last());
                }
                let msg = "Parent directory not found: ".to_owned();
                let rendered = crate::paths::render_path(&segs);
                return Err(msg.concat(rendered.as_str()));
            },
            Some(parent) => {
                proof {
                    assert(segs.deep_view().take(upto as int) =~= whole.drop_last());
                }
                if !parent.permissions.can_write(owner.as_str()) {
                    return Err("Permission denied: cannot write to parent directory".to_owned());
                }
                if !matches!(parent.file_type, FileType::Directory) {
                    return Err("Cannot add children to a file".to_owned());
                }
                let node = FileNode::new_file_at(leaf, content, owner, now);
                proof {
                    assert(segs.deep_view().skip(0) =~= segs.deep_view());
                }
                attach_at(&mut self.root, &segs, 0, node, now);
                Ok(())
            },
        }
    }

    /// Creates or overwrites the file at `path`, stamped with the current
    /// time.
    pub fn create_file(&mut self, path: &str, content: String, owner: String) -> (r: Result<
        (),
        String,
    >)
        requires
            old(self).wf(),
        ensures
            final(self).wf(),
            ({
                let segs = crate::paths::canon_segments(path@);
                let parent = segs.drop_last();
                let leaf = segs.last();
                if segs.len() == 0 {
                    r matches Err(e) && e@ == msg_cannot_create_root() && *final(self) == *old(self)
                } else {
                    match resolve_view(old(self).root@, parent) {
                        Option::None => r matches Err(e) && e@ == msg_parent_not_found(parent)
                            && *final(self) == *old(self),
                        Option::Some(p) => if !p.permissions.allows_write(owner@) {
                            r matches Err(e) && e@ == msg_permission_denied_parent() && *final(self)
                                == *old(self)
                        } else if p.file_type != FileType::Directory {
                            r matches Err(e) && e@ == msg_cannot_add_to_file() && *final(self)
                                == *old(self)
                        } else {
                            r is Ok && (exists|now: u64|
                                final(self).root@ == attach_view(
                                    old(self).root@,
                                    parent,
                                    new_file_view(leaf, content@, owner@, now),
                                    now,
                                ))
                        },
                    }
                }
            }),
    {
        let now = now_unix_seconds();
        self.create_file_at(path, content, owner, now)
    }

    /// Removes the node at `path` on behalf of `user`, at time `now`. The
    /// root can never be removed; otherwise the node must exist and the
    /// actor must own it or be able to write its parent directory.
    pub fn remove_at(&mut self, path: &str, user: &str, now: u64) -> (r: Result<(), String>)
        requires
            old(self).wf(),
        ensures
            final(self).wf(),
            ({
                let segs = crate::paths::canon_segments(path@);
                let parent = segs.drop_last();
                let leaf = segs.last();
                if segs.len() == 0 {
                    r matches Err(e) && e@ == msg_cannot_remove_root() && *final(self) == *old(self)
                } else {
                    match resolve_view(old(self).root@, parent) {
                        Option::None => r matches Err(e) && e@ == msg_parent_not_found(parent)
                            && *final(self) == *old(self),
                        Option::Some(p) => if !p.children.dom().contains(leaf) {
                            r matches Err(e) && e@ == msg_not_found(path@) && *final(self) == *old(
                                self,
                            )
                        } else if !(p.children[leaf].permissions.owner == user@
                            || p.permissions.allows_write(user@)) {
                            r matches Err(e) && e@ == msg_permission_denied_remove() && *final(self)
                                == *old(self)
                        } else {
                            r is Ok && final(self).root@ == detach_view(
                                old(self).root@,
                                parent,
                                leaf,
                                now,
                            )
                        },
                    }
                }
            }),
    {
        let mut segs = crate::paths::split_path(path);
        let ghost whole = segs.deep_view();
        let leaf = match segs.pop() {
            Some(l) => l,
            None => {
                return Err("Cannot remove root directory".to_owned());
            },
        };
        proof {
            assert(segs.deep_view() =~= whole.drop_last());
            assert(leaf@ == whole.last());
        }
        let upto = segs.len();
        match self.resolve_segments(&segs, upto) {
            None => {
                proof {
                    assert(segs.deep_view().take(upto as int) =~= whole.drop_last());
                }
                let msg = "Parent directory not found: ".to_owned();
                let rendered = crate::paths::render_path(&segs);
                return Err(msg.concat(rendered.as_str()));
            },
            Some(parent) => {
                proof {
                    assert(segs.deep_view().take(upto as int) =~= whole.drop_last());
                }
                match parent.get_child(leaf.as_str()) {
                    None => {
                        let msg = "File or directory not found: ".to_owned();
                        return Err(msg.concat(path));
                    },
                    Some(item) => {
                        let owned = str_eq(item.permissions.owner.as_str(), user);
                        let parent_writable = parent.permissions.can_write(user);
                        if !(owned || parent_writable) {
                            return Err("Permission denied: cannot remove item".to_owned());
                        }
                    },
                }
                proof {
                    assert(segs.deep_view().skip(0) =~= segs.deep_view());
                }
                detach_at(&mut self.root, &segs, 0, &leaf, now);
                Ok(())
            },
        }
    }

    /// Removes the node at `path` on behalf of `user`, stamped with the
    /// current time.
    pub fn remove(&mut self, path: &str, user: &str) -> (r: Result<(), String>)
        requires
            old(self).wf(),
        ensures
            final(self).wf(),
            ({
                let segs = crate::paths::canon_segments(path@);
                let parent = segs.drop_last();
                let leaf = segs.last();
                if segs.len() == 0 {
                    r matches Err(e) && e@ == msg_cannot_remove_root() && *final(self) == *old(self)
                } else {
                    match resolve_view(old(self).root@, parent) {
                        Option::None => r matches Err(e) && e@ == msg_parent_not_found(parent)
                            && *final(self) == *old(self),
                        Option::Some(p) => if !p.children.dom().contains(leaf) {
                            r matches Err(e) && e@ == msg_not_found(path@) && *final(self) == *old(
                                self,
                            )
                        } else if !(p.children[leaf].permissions.owner == user@
                            || p.permissions.allows_write(user@)) {
                            r matches Err(e) && e@ == msg_permission_denied_remove() && *final(self)
                                == *old(self)
                        } else {
                            r is Ok && (exists|now: u64|
                                final(self).root@ == detach_view(old(self).root@, parent, leaf, now))
                        },
                    }
                }
            }),
    {
        let now = now_unix_seconds();
        self.remove_at(path, user, now)
    }
}

} // verus!


verus! {

/// Relates the tree before and after a mutation through a borrow handed out
/// by `resolve_path_mut`: from level `i` on, the walk follows `segs`, only
/// the position on the walk changes at each level, and at the end of the
/// walk the node `sub_pre` became `sub_post`.
pub open spec fn grafted(
    pre: FileNode,
    post: FileNode,
    segs: Seq<Seq<char>>,
    i: int,
    sub_pre: FileNode,
    sub_post: FileNode,
) -> bool
    decreases segs.len() - i,
{
    if i < 0 || i >= segs.len() {
        pre == sub_pre && post == sub_post
    } else {
        {
            let ci = child_index(pre, segs[i]);
            &&& has_child_name(pre, segs[i])
            &&& post.children@ == pre.children@.update(ci, post.children@[ci])
            &&& grafted(pre.children@[ci], post.children@[ci], segs, i + 1, sub_pre, sub_post)
            &&& post.name == pre.name
            &&& post.file_type == pre.file_type
            &&& post.content == pre.content
            &&& post.permissions == pre.permissions
            &&& post.created_by == pre.created_by
            &&& post.created_at == pre.created_at
            &&& post.modified_at == pre.modified_at
        }
    }
}

/// Bridges `grafted` to the view level: when the borrowed node stayed well
/// formed and kept its name, the final tree is the old tree with exactly
/// that node replaced.
pub proof fn lemma_grafted_view(
    pre: FileNode,
    post: FileNode,
    segs: Seq<Seq<char>>,
    i: int,
    sub_pre: FileNode,
    sub_post: FileNode,
)
    requires
        pre.wf(),
        0 <= i <= segs.len(),
        grafted(pre, post, segs, i, sub_pre, sub_post),
        sub_post.wf(),
        sub_post@.name == sub_pre@.name,
    ensures
        post.wf(),
        post@ == replace_view(pre@, segs.skip(i), sub_post@),
    decreases segs.len() - i,
{
    if i == segs.len() {
        assert(segs.skip(i) =~= Seq::<Seq<char>>::empty());
        assert(post == sub_post);
        assert(pre == sub_pre);
        assert(replace_view(pre@, segs.skip(i), sub_post@) == sub_post@);
    } else {
        let ci = child_index(pre, segs[i]);
        assert(0 <= ci < pre.children@.len() && pre.children@[ci].name@ == segs[i]) by {
            let w = choose|w: int|
                0 <= w < pre.children@.len() && pre.children@[w].name@ == segs[i];
            assert(pre.children@[w].name@ == segs[i]);
        }
        lemma_grafted_view(pre.children@[ci], post.children@[ci], segs, i + 1, sub_pre, sub_post);
        lemma_child_lookup(pre, segs[i], ci);
        if i + 1 == segs.len() {
            assert(grafted(pre.children@[ci], post.children@[ci], segs, i + 1, sub_pre, sub_post));
            assert(pre.children@[ci] == sub_pre && post.children@[ci] == sub_post);
            assert(post.children@[ci]@.name == pre.children@[ci]@.name);
        } else {
            assert(segs.skip(i + 1).len() > 0);
            assert(post.children@[ci]@ == replace_view(
                pre.children@[ci]@,
                segs.skip(i + 1),
                sub_post@,
            ));
            assert(post.children@[ci]@.name == pre.children@[ci]@.name);
        }
        lemma_children_update(pre, post, ci, post.children@[ci]);
        assert(segs.skip(i).drop_first() =~= segs.skip(i + 1));
        assert(segs.skip(i)[0] == segs[i]);
        assert(post@ =~= replace_view(pre@, segs.skip(i), sub_post@));
    }
}

/// Whether `segs[i..]` resolves from `node`.
fn subtree_resolves(node: &FileNode, segs: &Vec<String>, i: usize) -> (b: bool)
    requires
        node.wf(),
        i <= segs@.len(),
    ensures
        b == (resolve_view(node@, segs.deep_view().skip(i as int)) is Some),
{
    let n = segs.len();
    let mut current: &FileNode = node;
    let mut j: usize = i;
    proof {
        assert(segs.deep_view().skip(i as int) =~= segs.deep_view().skip(j as int));
    }
    while j < n
        invariant
            i <= j <= n,
            n == segs@.len(),
            current.wf(),
            resolve_view(node@, segs.deep_view().skip(i as int)) == resolve_view(
                current@,
                segs.deep_view().skip(j as int),
            ),
        decreases n - j,
    {
        let ghost rem = segs.deep_view().skip(j as int);
        proof {
            assert(rem.len() > 0);
            assert(rem[0] == segs.deep_view()[j as int]);
        }
        match current.get_child(segs[j].as_str()) {
            Some(c) => {
                proof {
                    assert(rem.drop_first() =~= segs.deep_view().skip(j + 1));
                }
                current = c;
            },
            None => {
                return false;
            },
        }
        j += 1;
    }
    proof {
        assert(segs.deep_view().skip(n as int) =~= Seq::<Seq<char>>::empty());
    }
    true
}

/// Descends along `segs[i..]`, which is known to resolve, and hands back a
/// mutable borrow of the node reached; `grafted` ties the final tree to
/// whatever the caller makes of the borrowed node.
fn descend_mut<'a>(node: &'a mut FileNode, segs: &Vec<String>, i: usize) -> (n: &'a mut FileNode)
    requires
        old(node).wf(),
        i <= segs@.len(),
        resolve_view(old(node)@, segs.deep_view().skip(i as int)) is Some,
    ensures
        resolve_view(old(node)@, segs.deep_view().skip(i as int)) == Some((*n)@),
        (*n).wf(),
        grafted(*old(node), *final(node), segs.deep_view(), i as int, *n, *final(n)),
    decreases segs@.len() - i,
{
    let ghost rem = segs.deep_view().skip(i as int);
    if i == segs.len() {
        proof {
            assert(rem.len() == 0);
        }
        return node;
    }
    proof {
        assert(rem.len() > 0);
        assert(rem[0] == segs.deep_view()[i as int]);
        assert(old(node)@.children.dom().contains(rem[0]));
    }
    let pos = match node.child_position(segs[i].as_str()) {
        Some(p) => p,
        None => {
            proof {
                assert(has_child_name(*node, segs.deep_view()[i as int]));
            }
            vstd::pervasive::unreached()
        },
    };
    let ghost pre = *node;
    let ghost child_pre = node.children@[pos as int];
    proof {
        lemma_child_lookup(pre, segs.deep_view()[i as int], pos as int);
        assert(resolve_view(pre@, rem) == resolve_view(child_pre@, rem.drop_first()));
        assert(rem.drop_first() =~= segs.deep_view().skip(i + 1));
    }
    let child_ref = vstd::std_specs::vec::vec_index_mut(&mut node.children, pos);
    descend_mut(child_ref, segs, i + 1)
}

impl FileSystem {
    /// Resolves an absolute path to a mutable borrow of the node. While the
    /// borrow lives, the rest of the tree keeps its shape: `grafted` pins
    /// the final tree in terms of what the caller leaves in the borrowed
    /// node, and `lemma_grafted_view` turns that into a view-level
    /// replacement when the node stays well formed under its name.
    pub fn resolve_path_mut(&mut self, path: &str) -> (r: Option<&mut FileNode>)
        requires
            old(self).wf(),
        ensures
            match r {
                Some(n) => {
                    &&& resolve_view(old(self).root@, crate::paths::canon_segments(path@)) == Some(
                        (*n)@,
                    )
                    &&& (*n).wf()
                    &&& grafted(
                        old(self).root,
                        final(self).root,
                        crate::paths::canon_segments(path@),
                        0,
                        *n,
                        *final(n),
                    )
                },
                None => {
                    &&& resolve_view(old(self).root@, crate::paths::canon_segments(path@)) is None
                    &&& *final(self) == *old(self)
                },
            },
    {
        let segs = crate::paths::split_path(path);
        proof {
            assert(segs.deep_view().skip(0) =~= crate::paths::canon_segments(path@));
        }
        if !subtree_resolves(&self.root, &segs, 0) {
            return None;
        }
        Some(descend_mut(&mut self.root, &segs, 0))
    }
}

} // verus!

verus! {

/// A freshly created path resolves to the created node: attaching `child`
/// under the resolved parent and then resolving `parent + [child.name]`
/// yields exactly `child`, whatever its kind, creator and stamp.
pub proof fn lemma_created_path_resolves(
    root: NodeView,
    segs: Seq<Seq<char>>,
    child: NodeView,
    now: u64,
)
    requires
        segs.len() > 0,
        resolve_view(root, segs.drop_last()) is Some,
        child.name == segs.last(),
    ensures
        resolve_view(attach_view(root, segs.drop_last(), child, now), segs) == Some(child),
    decreases segs.len(),
{
    let parent = segs.drop_last();
    let att = attach_view(root, parent, child, now);
    if parent.len() == 0 {
        assert(segs.len() == 1);
        assert(att.children.dom().contains(child.name));
        assert(segs[0] == segs.last());
        assert(segs.drop_first() =~= Seq::<Seq<char>>::empty());
        assert(resolve_view(att, segs) == resolve_view(child, segs.drop_first()));
    } else {
        let p0 = parent[0];
        assert(segs[0] == p0);
        assert(root.children.dom().contains(p0));
        let sub = segs.drop_first();
        assert(sub.drop_last() =~= parent.drop_first());
        assert(sub.last() == segs.last());
        assert(sub.len() > 0);
        lemma_created_path_resolves(root.children[p0], sub, child, now);
        assert(att.children[p0] == attach_view(root.children[p0], parent.drop_first(), child, now));
        assert(resolve_view(att, segs) == resolve_view(att.children[p0], sub));
    }
}

/// A removed path no longer resolves: detaching `leaf` under the resolved
/// parent and then resolving `parent + [leaf]` fails.
pub proof fn lemma_removed_path_gone(root: NodeView, segs: Seq<Seq<char>>, now: u64)
    requires
        segs.len() > 0,
        resolve_view(root, segs.drop_last()) is Some,
    ensures
        resolve_view(detach_view(root, segs.drop_last(), segs.last(), now), segs) is None,
    decreases segs.len(),
{
    let parent = segs.drop_last();
    let leaf = segs.last();
    let det = detach_view(root, parent, leaf, now);
    if parent.len() == 0 {
        assert(segs.len() == 1);
        assert(segs[0] == leaf);
        assert(!det.children.dom().contains(leaf));
    } else {
        let p0 = parent[0];
        assert(segs[0] == p0);
        assert(root.children.dom().contains(p0));
        let sub = segs.drop_first();
        assert(sub.drop_last() =~= parent.drop_first());
        assert(sub.last() == leaf);
        assert(sub.len() > 0);
        lemma_removed_path_gone(root.children[p0], sub, now);
        assert(det.children[p0] == detach_view(root.children[p0], parent.drop_first(), leaf, now));
        assert(resolve_view(det, segs) == resolve_view(det.children[p0], sub));
    }
}

} // verus!

verus! {

/// Under `wf`, the children map is exactly as large as the children vector:
/// the map model forgets order, never an entry.
pub proof fn lemma_children_map_len(n: FileNode)
    requires
        n.wf(),
    ensures
        n@.children.len() == n.children@.len(),
{
    broadcast use vstd::set::group_set_axioms;

    let names = n.children@.map_values(|c: FileNode| c.name@);
    assert(names.no_duplicates()) by {
        assert forall|i: int, j: int|
            0 <= i < names.len() && 0 <= j < names.len() && i != j implies names[i] != names[j] by {
            if i < j {
                assert(n.children@[i].name@ != n.children@[j].name@);
            } else {
                assert(n.children@[j].name@ != n.children@[i].name@);
            }
        }
    }
    names.unique_seq_to_set();
    assert(names.to_set() =~= n@.children.dom()) by {
        assert forall|k: Seq<char>| #[trigger] names.to_set().contains(k) implies n@.children.dom().contains(
            k,
        ) by {
            let i = choose|i: int| 0 <= i < names.len() && names[i] == k;
            assert(n.children@[i].name@ == k);
            assert(has_child_name(n, k));
        }
        assert forall|k: Seq<char>| #[trigger] n@.children.dom().contains(k) implies names.to_set().contains(
            k,
        ) by {
            let i = child_index(n, k);
            assert(0 <= i < n.children@.len() && n.children@[i].name@ == k);
            assert(names[i] == k);
            assert(names.contains(k));
        }
    }
}

} // verus!
