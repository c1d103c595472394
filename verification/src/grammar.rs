//! The command tree: a read-only arena of nodes addressed by index.

use vstd::prelude::*;

verus! {

/// What a node of the command tree stands for.
#[derive(Clone, Copy, Debug, PartialEq, Eq, Structural)]
pub enum NodeKind {
    Command,
    Flag,
    Positional,
}

/// One literal of a closed value set, with its one-line description.
#[derive(Clone, Debug, PartialEq, Eq)]
pub struct ValueChoice {
    pub literal: String,
    pub description: Option<String>,
}

/// The mathematical content of a `ValueChoice`; also the shape of anything
/// that completion may offer.
pub struct ChoiceView {
    pub literal: Seq<char>,
    pub description: Option<Seq<char>>,
}

/// The text of an optional string.
pub open spec fn opt_text(o: Option<String>) -> Option<Seq<char>> {
    match o {
        Some(s) => Some(s@),
        None => None,
    }
}

impl View for ValueChoice {
    type V = ChoiceView;

    open spec fn view(&self) -> ChoiceView {
        ChoiceView { literal: self.literal@, description: opt_text(self.description) }
    }
}

/// The contents of a list of choices.
pub open spec fn choices(v: Seq<ValueChoice>) -> Seq<ChoiceView> {
    Seq::new(v.len(), |i: int| v[i]@)
}

/// The contents of an optional list of choices.
pub open spec fn opt_choices(o: Option<Vec<ValueChoice>>) -> Option<Seq<ChoiceView>> {
    match o {
        Some(v) => Some(choices(v@)),
        None => None,
    }
}

/// A node of the command tree.
///
/// A flag is spelled on the line as `long` or `short`, both written with
/// their dashes; `name` is what a bound value is filed under.
#[derive(Clone, Debug)]
pub struct GrammarNode {
    pub name: String,
    pub kind: NodeKind,
    pub long: Option<String>,
    pub short: Option<String>,
    /// A flag that is followed by a value, as opposed to a switch.
    pub takes_value: bool,
    /// A positional that takes every remaining word, or a flag that may repeat.
    pub multiple: bool,
    pub required: bool,
    pub description: Option<String>,
    /// The closed set of values that the node accepts, if it has one.
    pub values: Option<Vec<ValueChoice>>,
    /// The node's children, in declaration order.
    pub children: Vec<usize>,
}

/// The mathematical content of a `GrammarNode`.
pub struct NodeView {
    pub name: Seq<char>,
    pub kind: NodeKind,
    pub long: Option<Seq<char>>,
    pub short: Option<Seq<char>>,
    pub takes_value: bool,
    pub multiple: bool,
    pub required: bool,
    pub description: Option<Seq<char>>,
    pub values: Option<Seq<ChoiceView>>,
    pub children: Seq<usize>,
}

impl View for GrammarNode {
    type V = NodeView;

    open spec fn view(&self) -> NodeView {
        NodeView {
            name: self.name@,
            kind: self.kind,
            long: opt_text(self.long),
            short: opt_text(self.short),
            takes_value: self.takes_value,
            multiple: self.multiple,
            required: self.required,
            description: opt_text(self.description),
            values: opt_choices(self.values),
            children: self.children@,
        }
    }
}

/// A command without children, as a value.
pub open spec fn command_node(name: Seq<char>, description: Option<Seq<char>>) -> NodeView {
    NodeView {
        name,
        kind: NodeKind::Command,
        long: None,
        short: None,
        takes_value: false,
        multiple: false,
        required: false,
        description,
        values: None,
        children: Seq::empty(),
    }
}

impl GrammarNode {
    /// Whether `text` is accepted as a value of this node.
    pub fn accepts(&self, text: &String) -> (res: bool)
        ensures
            res == allowed(self@, text@),
    {
        match &self.values {
            None => true,
            Some(vs) => {
                let mut j: usize = 0;
                while j < vs.len()
                    invariant
                        j <= vs.len(),
                        self@.values == Some(choices(vs@)),
                        forall|m: int| 0 <= m < j ==> (#[trigger] choices(vs@)[m]).literal != text@,
                    decreases vs.len() - j,
                {
                    if vs[j].literal == *text {
                        assert(choices(vs@)[j as int].literal == text@);
                        return true;
                    }
                    j = j + 1;
                }
                false
            },
        }
    }

    /// A command without children.
    pub fn command(name: String, description: Option<String>) -> (node: GrammarNode)
        ensures
            node@ == command_node(name@, opt_text(description)),
    {
        GrammarNode {
            name,
            kind: NodeKind::Command,
            long: None,
            short: None,
            takes_value: false,
            multiple: false,
            required: false,
            description,
            values: None,
            children: Vec::new(),
        }
    }

    /// An optional flag with its spellings; `takes_value` tells a flag with
    /// a value from a switch.
    pub fn flag(
        name: String,
        long: Option<String>,
        short: Option<String>,
        takes_value: bool,
    ) -> (node: GrammarNode)
        ensures
            node@ == (NodeView {
                name: name@,
                kind: NodeKind::Flag,
                long: opt_text(long),
                short: opt_text(short),
                takes_value,
                multiple: false,
                required: false,
                description: None,
                values: None,
                children: Seq::empty(),
            }),
    {
        GrammarNode {
            name,
            kind: NodeKind::Flag,
            long,
            short,
            takes_value,
            multiple: false,
            required: false,
            description: None,
            values: None,
            children: Vec::new(),
        }
    }

    /// A positional argument that takes one word.
    pub fn positional(name: String, required: bool) -> (node: GrammarNode)
        ensures
            node@ == (NodeView {
                name: name@,
                kind: NodeKind::Positional,
                long: None,
                short: None,
                takes_value: true,
                multiple: false,
                required,
                description: None,
                values: None,
                children: Seq::empty(),
            }),
    {
        GrammarNode {
            name,
            kind: NodeKind::Positional,
            long: None,
            short: None,
            takes_value: true,
            multiple: false,
            required,
            description: None,
            values: None,
            children: Vec::new(),
        }
    }
}

/// What is looked for among the children of a node.
pub enum Want<'a> {
    /// A command of this name.
    Command(&'a String),
    /// A flag with this long or short spelling.
    Flag(&'a String),
    /// Any command.
    AnyCommand,
    /// Any positional.
    Positional,
}

/// The mathematical content of a `Want`.
pub enum WantView {
    Command(Seq<char>),
    Flag(Seq<char>),
    AnyCommand,
    Positional,
}

impl<'a> View for Want<'a> {
    type V = WantView;

    open spec fn view(&self) -> WantView {
        match *self {
            Want::Command(s) => WantView::Command(s@),
            Want::Flag(s) => WantView::Flag(s@),
            Want::AnyCommand => WantView::AnyCommand,
            Want::Positional => WantView::Positional,
        }
    }
}

/// Whether node `n` is what `w` looks for.  Names and spellings are compared
/// exactly, case included.
pub open spec fn fits(n: NodeView, w: WantView) -> bool {
    match w {
        WantView::Command(text) => n.kind == NodeKind::Command && n.name == text,
        WantView::Flag(text) => n.kind == NodeKind::Flag && (n.long == Some(text) || n.short
            == Some(text)),
        WantView::AnyCommand => n.kind == NodeKind::Command,
        WantView::Positional => n.kind == NodeKind::Positional,
    }
}

/// The first position at or after `from` in the children of `node` whose
/// child is what `w` looks for.
pub open spec fn first_fit(g: Seq<NodeView>, node: int, w: WantView, from: int) -> Option<int>
    decreases g[node].children.len() - from,
{
    if from < 0 || from >= g[node].children.len() {
        None
    } else if fits(g[g[node].children[from] as int], w) {
        Some(from)
    } else {
        first_fit(g, node, w, from + 1)
    }
}

/// What the search finds is a position at or after `from` whose child fits.
pub proof fn first_fit_fits(g: Seq<NodeView>, node: int, w: WantView, from: int)
    ensures
        first_fit(g, node, w, from) matches Some(k) ==> from <= k < g[node].children.len() && fits(
            g[g[node].children[k] as int],
            w,
        ),
    decreases g[node].children.len() - from,
{
    if 0 <= from < g[node].children.len() && !fits(g[g[node].children[from] as int], w) {
        first_fit_fits(g, node, w, from + 1);
    }
}

/// A child that fits is found: the search from `from` ends at or before any
/// position `k` whose child is what `w` looks for.
pub proof fn first_fit_finds(g: Seq<NodeView>, node: int, w: WantView, from: int, k: int)
    requires
        0 <= from <= k < g[node].children.len(),
        fits(g[g[node].children[k] as int], w),
    ensures
        first_fit(g, node, w, from) matches Some(j) && from <= j <= k,
    decreases k - from,
{
    if !fits(g[g[node].children[from] as int], w) {
        first_fit_finds(g, node, w, from + 1, k);
    }
}

/// Whether `text` is accepted as a value of `n`: any text where `n` has no
/// closed value set, else exactly its literals.
pub open spec fn allowed(n: NodeView, text: Seq<char>) -> bool {
    match n.values {
        None => true,
        Some(vs) => exists|j: int| 0 <= j < vs.len() && (#[trigger] vs[j]).literal == text,
    }
}

/// Validity of a tree: it has a root, which is a command; every child index
/// names a node; only commands have children; siblings differ in name.
pub open spec fn wf_nodes(g: Seq<NodeView>) -> bool {
    &&& g.len() >= 1
    &&& g[0].kind == NodeKind::Command
    &&& forall|i: int, k: int|
        0 <= i < g.len() && 0 <= k < g[i].children.len() ==> (#[trigger] g[i].children[k])
            < g.len()
    &&& forall|i: int|
        0 <= i < g.len() && (#[trigger] g[i]).kind != NodeKind::Command ==> g[i].children.len()
            == 0
    &&& forall|i: int, a: int, b: int|
        0 <= i < g.len() && 0 <= a < b < g[i].children.len() ==> g[#[trigger] g[i].children[a] as int].name
            != g[#[trigger] g[i].children[b] as int].name
}

/// Why a node could not be added to a tree.
#[derive(Clone, Copy, Debug, PartialEq, Eq, Structural)]
pub enum BuildError {
    /// The parent index names no node.
    NoSuchParent,
    /// The parent is a flag or a positional.
    ParentNotCommand,
    /// The new node was handed over with children of its own.
    HasChildren,
    /// A child of the parent has the same name already.
    DuplicateName,
}

/// Whether some child of `node` at a position below `upto` is called `name`.
pub open spec fn name_taken(g: Seq<NodeView>, node: int, name: Seq<char>, upto: int) -> bool {
    exists|k: int| 0 <= k < upto && g[#[trigger] g[node].children[k] as int].name == name
}

/// Node `n` with one more child at the end.
pub open spec fn with_child(n: NodeView, child: usize) -> NodeView {
    NodeView { children: n.children.push(child), ..n }
}

/// The command tree.  Node 0 is the root.
pub struct Grammar {
    nodes: Vec<GrammarNode>,
}

impl View for Grammar {
    type V = Seq<NodeView>;

    closed spec fn view(&self) -> Seq<NodeView> {
        Seq::new(self.nodes@.len(), |i: int| self.nodes@[i]@)
    }
}

impl Grammar {
    /// Validity of the tree (see `wf_nodes`).
    pub open spec fn wf(&self) -> bool {
        wf_nodes(self@)
    }

    /// A tree that holds only its root command.
    pub fn new(name: String) -> (g: Grammar)
        ensures
            g.wf(),
            g@.len() == 1,
            g@[0] == command_node(name@, None),
    {
        let root = GrammarNode::command(name, None);
        let mut nodes: Vec<GrammarNode> = Vec::new();
        nodes.push(root);
        Grammar { nodes }
    }

    /// The number of nodes.
    pub fn len(&self) -> (n: usize)
        ensures
            n == self@.len(),
    {
        self.nodes.len()
    }

    /// The root command.
    pub fn root(&self) -> (node: &GrammarNode)
        requires
            self.wf(),
        ensures
            node@ == self@[0],
    {
        &self.nodes[0]
    }

    /// The node with index `id`, where there is one.
    pub fn node(&self, id: usize) -> (res: Option<&GrammarNode>)
        ensures
            match res {
                Some(node) => id < self@.len() && node@ == self@[id as int],
                None => id >= self@.len(),
            },
    {
        if id < self.nodes.len() {
            Some(&self.nodes[id])
        } else {
            None
        }
    }

    /// The node with index `id`.
    pub(crate) fn at(&self, id: usize) -> (node: &GrammarNode)
        requires
            id < self@.len(),
        ensures
            node@ == self@[id as int],
    {
        &self.nodes[id]
    }

    /// The children of node `id` in declaration order, where there is such a
    /// node.
    pub fn children_of(&self, id: usize) -> (res: Option<&Vec<usize>>)
        ensures
            match res {
                Some(c) => id < self@.len() && c@ == self@[id as int].children,
                None => id >= self@.len(),
            },
    {
        if id < self.nodes.len() {
            Some(&self.nodes[id].children)
        } else {
            None
        }
    }

    /// The closed value set of node `id` in declaration order, where there is
    /// such a node and it has one.
    pub fn value_set_of(&self, id: usize) -> (res: Option<&Vec<ValueChoice>>)
        ensures
            match res {
                Some(v) => id < self@.len() && self@[id as int].values == Some(choices(v@)),
                None => id >= self@.len() || self@[id as int].values.is_none(),
            },
    {
        if id < self.nodes.len() {
            match &self.nodes[id].values {
                Some(v) => Some(v),
                None => None,
            }
        } else {
            None
        }
    }

    /// Looks among the children of `node`, from position `from` on, for the
    /// first that is what `w` asks for, and returns its position; nothing
    /// where there is no such node.
    pub fn find_child(&self, node: usize, w: &Want, from: usize) -> (res: Option<usize>)
        requires
            self.wf(),
        ensures
            match res {
                Some(k) => node < self@.len() && first_fit(self@, node as int, w@, from as int)
                    == Some(k as int) && from <= k < self@[node as int].children.len(),
                None => node >= self@.len() || first_fit(
                    self@,
                    node as int,
                    w@,
                    from as int,
                ).is_none(),
            },
    {
        if node >= self.nodes.len() {
            return None;
        }
        let kids = &self.nodes[node].children;
        let mut k: usize = from;
        while k < kids.len()
            invariant
                self.wf(),
                node < self@.len(),
                kids@ == self@[node as int].children,
                from <= k,
                first_fit(self@, node as int, w@, from as int) == first_fit(
                    self@,
                    node as int,
                    w@,
                    k as int,
                ),
            decreases kids.len() - k,
        {
            let child = &self.nodes[kids[k]];
            assert(child@ == self@[kids@[k as int] as int]);
            let hit = match w {
                Want::Command(text) => child.kind == NodeKind::Command && child.name == **text,
                Want::Flag(text) => child.kind == NodeKind::Flag && (match &child.long {
                    Some(l) => *l == **text,
                    None => false,
                } || match &child.short {
                    Some(s) => *s == **text,
                    None => false,
                }),
                Want::AnyCommand => child.kind == NodeKind::Command,
                Want::Positional => child.kind == NodeKind::Positional,
            };
            if hit {
                return Some(k);
            }
            k = k + 1;
        }
        None
    }

    /// Adds `node` as the last child of `parent` and returns its index.
    ///
    /// The tree is left as it was where the parent is missing or is no
    /// command, where `node` brings children, or where a sibling has its name.
    pub fn add_child(&mut self, parent: usize, node: GrammarNode) -> (res: Result<
        usize,
        BuildError,
    >)
        requires
            old(self).wf(),
        ensures
            final(self).wf(),
            match res {
                Ok(id) => {
                    &&& parent < old(self)@.len()
                    &&& old(self)@[parent as int].kind == NodeKind::Command
                    &&& node@.children.len() == 0
                    &&& !name_taken(
                        old(self)@,
                        parent as int,
                        node@.name,
                        old(self)@[parent as int].children.len() as int,
                    )
                    &&& id == old(self)@.len()
                    &&& final(self)@ == old(self)@.update(
                        parent as int,
                        with_child(old(self)@[parent as int], id),
                    ).push(node@)
                },
                Err(e) => {
                    &&& final(self)@ == old(self)@
                    &&& e == BuildError::NoSuchParent <==> parent >= old(self)@.len()
                    &&& e == BuildError::ParentNotCommand <==> parent < old(self)@.len() && old(
                        self,
                    )@[parent as int].kind != NodeKind::Command
                    &&& e == BuildError::HasChildren <==> parent < old(self)@.len() && old(
                        self,
                    )@[parent as int].kind == NodeKind::Command && node@.children.len() != 0
                    &&& e == BuildError::DuplicateName <==> parent < old(self)@.len() && old(
                        self,
                    )@[parent as int].kind == NodeKind::Command && node@.children.len() == 0
                        && name_taken(
                        old(self)@,
                        parent as int,
                        node@.name,
                        old(self)@[parent as int].children.len() as int,
                    )
                },
            },
    {
        let ghost before = self@;
        if parent >= self.nodes.len() {
            return Err(BuildError::NoSuchParent);
        }
        if self.nodes[parent].kind != NodeKind::Command {
            return Err(BuildError::ParentNotCommand);
        }
        if node.children.len() != 0 {
            return Err(BuildError::HasChildren);
        }
        let count = self.nodes[parent].children.len();
        let mut k: usize = 0;
        while k < count
            invariant
                self@ == before,
                wf_nodes(before),
                parent < before.len(),
                before[parent as int].kind == NodeKind::Command,
                node@.children.len() == 0,
                count == before[parent as int].children.len(),
                k <= count,
                !name_taken(before, parent as int, node@.name, k as int),
            decreases count - k,
        {
            let child = self.nodes[parent].children[k];
            if self.nodes[child].name == node.name {
                assert(name_taken(before, parent as int, node@.name, count as int));
                return Err(BuildError::DuplicateName);
            }
            k = k + 1;
        }
        let id = self.nodes.len();
        self.nodes[parent].children.push(id);
        self.nodes.push(node);
        proof {
            let after = self@;
            assert(after =~= before.update(
                parent as int,
                with_child(before[parent as int], id),
            ).push(node@));
            assert forall|i: int, j: int|
                0 <= i < after.len() && 0 <= j < after[i].children.len() implies (
            #[trigger] after[i].children[j]) < after.len() by {
                if i < before.len() && j < before[i].children.len() {
                    assert(after[i].children[j] == before[i].children[j]);
                }
            }
            assert forall|i: int, a: int, b: int|
                0 <= i < after.len() && 0 <= a < b < after[i].children.len() implies after[
            #[trigger] after[i].children[a] as int].name != after[
            #[trigger] after[i].children[b] as int].name by {
                assert(after[i].children[a] == before[i].children[a]);
                if b < before[i].children.len() {
                    assert(after[i].children[b] == before[i].children[b]);
                }
            }
        }
        Ok(id)
    }
}

} // verus!
