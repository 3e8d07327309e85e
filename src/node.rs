use vstd::prelude::*;

verus! {

/// The two kinds of filesystem entry that a tree records.
#[derive(Clone, Copy, Debug, PartialEq, Eq, Structural)]
pub enum NodeKind {
    File,
    Directory,
}

impl NodeKind {
    /// The text under which the kind is written out.
    pub open spec fn spec_label(self) -> Seq<char> {
        match self {
            NodeKind::File => "File"@,
            NodeKind::Directory => "Directory"@,
        }
    }

    pub fn label(self) -> (r: &'static str)
        ensures
            r@ == self.spec_label(),
    {
        match self {
            NodeKind::File => {
                proof {
                    reveal_strlit("File");
                }
                "File"
            },
            NodeKind::Directory => {
                proof {
                    reveal_strlit("Directory");
                }
                "Directory"
            },
        }
    }
}

/// One filesystem entry: its identity and its kind.
#[derive(Clone, Debug)]
pub struct PathNode {
    pub name: String,
    pub relative_path: String,
    pub absolute_path: String,
    pub kind: NodeKind,
}

impl PathNode {
    pub fn new(name: String, relative_path: String, absolute_path: String, kind: NodeKind) -> (r:
        PathNode)
        ensures
            r.name == name,
            r.relative_path == relative_path,
            r.absolute_path == absolute_path,
            r.kind == kind,
    {
        PathNode { name, relative_path, absolute_path, kind }
    }
}

} // verus!
