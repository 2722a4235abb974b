use vstd::prelude::*;
use crate::file_type::{MtpFileType, classify};
use crate::mtp_file::MtpFile;

verus! {

/// What the device tells of one child of a node.
#[derive(Debug)]
pub struct NodeInfo {
    /// The caller's reference to the device object.
    pub object: usize,
    pub name: String,
    /// The size in bytes, or `None` where the device gives none.
    pub size: Option<u32>,
}

/// A node whose children are still to be listed.
#[derive(Debug)]
pub struct Pending {
    pub object: usize,
    /// Its path, or `None` for the device root.
    pub path: Option<String>,
    /// The file it stands for, where its name has a known type and its size
    /// is known.
    pub file: Option<MtpFile>,
}

/// The path of a child: the parent's path and the child's name joined by
/// `/`, or the name alone under the device root.
pub open spec fn child_path(parent: Option<Seq<char>>, name: Seq<char>) -> Seq<char> {
    match parent {
        Some(p) => p + "/"@ + name,
        None => name,
    }
}

pub open spec fn opt_path(p: Option<String>) -> Option<Seq<char>> {
    match p {
        Some(s) => Some(s@),
        None => None,
    }
}

/// `p` is what a walk makes of the child `c` of the node at `parent`.
pub open spec fn pending_of(p: Pending, parent: Option<Seq<char>>, c: NodeInfo) -> bool {
    let path = child_path(parent, c.name@);
    &&& p.object == c.object
    &&& opt_path(p.path) == Some(path)
    &&& match p.file {
        Some(f) => {
            &&& classify(c.name@) == Some(f.file_type)
            &&& c.size == Some(f.size as u32)
            &&& f.size < 0x1_0000_0000
            &&& f.name@ == c.name@
            &&& f.path@ == path
            &&& f.object == c.object
        },
        None => classify(c.name@) is None || c.size is None,
    }
}

/// A depth-first walk of the device's object tree. Each node's children are
/// listed by the caller; a child is met before the children of the siblings
/// after it, and each child with a known type and size becomes a file, in the
/// order in which the walk meets it.
pub struct Walk {
    stack: Vec<Pending>,
    files: Vec<MtpFile>,
    current: Option<String>,
}

impl Walk {
    pub closed spec fn spec_stack(self) -> Seq<Pending> {
        self.stack@
    }

    pub closed spec fn spec_files(self) -> Seq<MtpFile> {
        self.files@
    }

    /// The path of the node whose children are listed next.
    pub closed spec fn spec_current(self) -> Option<Seq<char>> {
        opt_path(self.current)
    }

    /// Starts a walk at a node, the device root where `path` is `None`.
    pub fn new(root: usize, path: Option<String>) -> (r: Walk)
        ensures
            r.spec_stack().len() == 1,
            r.spec_stack()[0].object == root,
            opt_path(r.spec_stack()[0].path) == opt_path(path),
            r.spec_stack()[0].file is None,
            r.spec_files().len() == 0,
    {
        let mut stack: Vec<Pending> = Vec::new();
        stack.push(Pending { object: root, path, file: None });
        Walk { stack, files: Vec::new(), current: None }
    }

    /// Takes the next node of the walk: it is kept as a file where it stands
    /// for one, and its object is handed back for its children to be listed.
    /// `None` where the walk is done.
    pub fn next_node(&mut self) -> (r: Option<usize>)
        ensures
            old(self).spec_stack().len() == 0 ==> r is None && final(self).spec_stack().len() == 0
                && final(self).spec_files() == old(self).spec_files(),
            old(self).spec_stack().len() > 0 ==> ({
                let p = old(self).spec_stack().last();
                &&& r == Some(p.object)
                &&& final(self).spec_stack() == old(self).spec_stack().drop_last()
                &&& final(self).spec_current() == opt_path(p.path)
                &&& final(self).spec_files() == match p.file {
                    Some(f) => old(self).spec_files().push(f),
                    None => old(self).spec_files(),
                }
            }),
    {
        match self.stack.pop() {
            Some(p) => {
                let object = p.object;
                match p.file {
                    Some(f) => self.files.push(f),
                    None => {},
                }
                self.current = p.path;
                Some(object)
            },
            None => None,
        }
    }

    /// Hands the walk the children of the node last taken, in the device's
    /// order; the first of them is taken next.
    pub fn add_children(&mut self, children: Vec<NodeInfo>)
        ensures
            final(self).spec_files() == old(self).spec_files(),
            final(self).spec_current() == old(self).spec_current(),
            final(self).spec_stack().len() == old(self).spec_stack().len() + children@.len(),
            forall|k: int| 0 <= k < old(self).spec_stack().len() ==>
                #[trigger] final(self).spec_stack()[k] == old(self).spec_stack()[k],
            forall|k: int| 0 <= k < children@.len() ==>
                pending_of(
                    #[trigger] final(self).spec_stack()[old(self).spec_stack().len() + children@.len() - 1 - k],
                    old(self).spec_current(),
                    children@[k],
                ),
    {
        let ghost base = self.stack@;
        let ghost kids = children@;
        let ghost parent = opt_path(self.current);
        let n = children.len();
        let mut children = children;
        let mut j: usize = n;
        while j > 0
            invariant
                j <= n,
                n == kids.len(),
                children@ == kids.subrange(0, j as int),
                opt_path(self.current) == parent,
                self.files@ == old(self).files@,
                self.stack@.len() == base.len() + (n - j),
                forall|k: int| 0 <= k < base.len() ==> #[trigger] self.stack@[k] == base[k],
                forall|k: int| j <= k < n ==>
                    pending_of(#[trigger] self.stack@[base.len() + n - 1 - k], parent, kids[k]),
            decreases j,
        {
            let c = children.pop().unwrap();
            assert(c == kids[j - 1]);
            let path = match &self.current {
                Some(p) => {
                    let mut s = p.clone();
                    s.append("/");
                    s.append(c.name.as_str());
                    s
                },
                None => c.name.clone(),
            };
            let file = match (MtpFileType::try_from_file_name(c.name.as_str()), c.size) {
                (Ok(t), Some(size)) => Some(
                    MtpFile {
                        name: c.name.clone(),
                        path: path.clone(),
                        file_type: t,
                        size: size as u64,
                        object: c.object,
                    },
                ),
                _ => None,
            };
            let ghost before = self.stack@;
            self.stack.push(Pending { object: c.object, path: Some(path), file });
            assert forall|k: int| j <= k < n implies pending_of(
                #[trigger] self.stack@[base.len() + n - 1 - k],
                parent,
                kids[k],
            ) by {
                assert(self.stack@[base.len() + n - 1 - k] == before[base.len() + n - 1 - k]);
            }
            j = j - 1;
        }
    }

    /// Ends the walk and hands over the files found, in the order met.
    pub fn into_files(self) -> (r: Vec<MtpFile>)
        ensures
            r@ == self.spec_files(),
    {
        self.files
    }
}

} // verus!
