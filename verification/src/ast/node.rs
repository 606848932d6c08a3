use vstd::prelude::*;

verus! {

/// The statements of one source text, in the order of the text.
pub type Program = Vec<Node>;

/// What a node is: an operator over its two children, or a leaf.
#[derive(Debug, Clone, Copy, PartialEq, Eq, Structural)]
pub enum Kind {
    Add,
    Sub,
    Mul,
    Div,
    Eq,
    Ne,
    Lt,
    Le,
    Assign,
    LocalVar(LocalVar),
    Number(u64),
}

impl Kind {
    /// The two kinds without children.
    pub open spec fn is_leaf(self) -> bool {
        self is LocalVar || self is Number
    }

    /// The eight kinds that compute a value from two values.
    pub open spec fn is_operation(self) -> bool {
        !self.is_leaf() && !(self is Assign)
    }
}

/// A variable, known by the distance in bytes of its slot below the frame
/// base.
#[derive(Debug, Clone, Copy, PartialEq, Eq, Structural)]
pub struct LocalVar {
    pub offset: u64,
}

/// The number of variable slots in a frame, one for each letter.
pub const SLOTS: u64 = 26;

/// The size of a slot in bytes.
pub const SLOT_SIZE: u64 = 8;

impl LocalVar {
    /// The offset of the slot of the variable called `name`: 8 for `a`,
    /// 16 for `b`, and so on to 208 for `z`.
    pub open spec fn offset_of(name: char) -> int {
        (name as int - 'a' as int + 1) * SLOT_SIZE
    }

    /// Whether `name` names a variable.
    pub open spec fn is_name(name: char) -> bool {
        'a' <= name <= 'z'
    }

    /// The variable called `name`.
    pub fn of(name: char) -> (var: Self)
        requires
            Self::is_name(name),
        ensures
            var.offset == Self::offset_of(name),
            var.in_frame(),
    {
        let index: u8 = name as u8 - 'a' as u8;
        let index: u64 = index as u64;
        LocalVar { offset: (index + 1) * SLOT_SIZE }
    }

    /// Whether `offset` is that of a slot of the frame: one of 8, 16, and
    /// so on to 208.
    pub open spec fn is_slot(offset: int) -> bool {
        SLOT_SIZE <= offset <= SLOTS * SLOT_SIZE && offset % (SLOT_SIZE as int) == 0
    }

    /// Whether the variable has its slot in the frame.
    pub open spec fn in_frame(self) -> bool {
        Self::is_slot(self.offset as int)
    }
}

/// The 26 names and the 26 slots stand one to one: two names have two
/// slots, every name has its slot among the offsets 8, 16, .. 208, and each
/// of those offsets is the slot of a name.
pub proof fn lemma_slots_one_to_one()
    ensures
        forall|x: char, y: char|
            LocalVar::is_name(x) && LocalVar::is_name(y) && #[trigger] LocalVar::offset_of(x)
                == #[trigger] LocalVar::offset_of(y) ==> x == y,
        forall|x: char| LocalVar::is_name(x) ==> LocalVar::is_slot(#[trigger] LocalVar::offset_of(x)),
        forall|offset: int| #[trigger]
            LocalVar::is_slot(offset) ==> exists|x: char|
                LocalVar::is_name(x) && #[trigger] LocalVar::offset_of(x) == offset,
{
    assert forall|offset: int| #[trigger] LocalVar::is_slot(offset) implies exists|x: char|
        LocalVar::is_name(x) && #[trigger] LocalVar::offset_of(x) == offset by {
        let x = (('a' as int) + offset / 8 - 1) as char;
        assert(LocalVar::is_name(x) && LocalVar::offset_of(x) == offset);
    }
}

/// A child of a node, where it has one.
pub type Link = Option<Box<Node>>;

/// A node of the syntax tree. It owns its children.
#[derive(Debug, PartialEq, Eq)]
pub struct Node {
    pub kind: Kind,
    pub lhs: Link,
    pub rhs: Link,
}

impl Node {
    /// The node of kind `kind` over the children `lhs` and `rhs`.
    pub open spec fn binary(kind: Kind, lhs: Node, rhs: Node) -> Node {
        Node { kind, lhs: Some(Box::new(lhs)), rhs: Some(Box::new(rhs)) }
    }

    /// The node of kind `kind` without children.
    pub open spec fn leaf(kind: Kind) -> Node {
        Node { kind, lhs: None, rhs: None }
    }

    /// The form of every tree that the parser builds: an operator or an
    /// assignment has two children of that form, a leaf has none, and a
    /// variable has its slot in the frame.
    pub open spec fn well_formed(self) -> bool
        decreases self,
    {
        match self.kind {
            Kind::Number(_) => self.lhs is None && self.rhs is None,
            Kind::LocalVar(var) => self.lhs is None && self.rhs is None && var.in_frame(),
            _ => {
                &&& self.lhs matches Some(lhs)
                &&& self.rhs matches Some(rhs)
                &&& lhs.well_formed()
                &&& rhs.well_formed()
            },
        }
    }

    /// The node of kind `kind` with the children `lhs` and `rhs`, where it
    /// has them.
    pub fn new(kind: Kind, lhs: Link, rhs: Link) -> (node: Node)
        ensures
            node == (Node { kind, lhs, rhs }),
    {
        Self { kind, lhs, rhs }
    }

    /// The node of kind `kind` over the children `lhs` and `rhs`.
    pub fn with(kind: Kind, lhs: Node, rhs: Node) -> (node: Node)
        ensures
            node == Node::binary(kind, lhs, rhs),
    {
        Node::new(kind, Node::link(lhs), Node::link(rhs))
    }

    /// The operation `kind` on the two numbers `lhs` and `rhs`.
    pub fn ops(kind: Kind, lhs: u64, rhs: u64) -> (node: Node)
        requires
            kind.is_operation(),
        ensures
            node == Node::binary(
                kind,
                Node::leaf(Kind::Number(lhs)),
                Node::leaf(Kind::Number(rhs)),
            ),
    {
        Node::with(kind, Node::number(lhs), Node::number(rhs))
    }

    /// The node `node` as the child of another.
    pub fn link(node: Node) -> (link: Link)
        ensures
            link == Some(Box::new(node)),
    {
        Some(Box::new(node))
    }

    /// The leaf of the number `n`.
    pub fn number(n: u64) -> (node: Node)
        ensures
            node == Node::leaf(Kind::Number(n)),
    {
        Node::new(Kind::Number(n), None, None)
    }

    /// The leaf of the variable whose slot lies `offset` below the frame
    /// base.
    pub fn local_var(offset: u64) -> (node: Node)
        ensures
            node == Node::leaf(Kind::LocalVar(LocalVar { offset })),
    {
        Node::new(Kind::LocalVar(LocalVar { offset }), None, None)
    }
}

} // verus!
