//! Matching a sequence of words against the command tree.

use vstd::prelude::*;
use vstd::string::*;
use crate::grammar::{
    allowed, first_fit, first_fit_fits, Grammar, NodeKind, NodeView, Want, WantView,
};
use crate::lexer::{shell_words, token_texts, tokenize, LexError, Token};

verus! {

/// A value bound to a flag or a positional: the node's index and the word
/// taken, or no word for a switch.
#[derive(Clone, Debug, PartialEq, Eq)]
pub struct Binding {
    pub node: usize,
    pub value: Option<String>,
}

/// The mathematical content of a `Binding`.
pub struct BoundView {
    pub node: usize,
    pub value: Option<Seq<char>>,
}

impl View for Binding {
    type V = BoundView;

    open spec fn view(&self) -> BoundView {
        BoundView {
            node: self.node,
            value: match self.value {
                Some(s) => Some(s@),
                None => None,
            },
        }
    }
}

/// The contents of a list of bindings.
pub open spec fn bound_view(b: Seq<Binding>) -> Seq<BoundView> {
    Seq::new(b.len(), |j: int| b[j]@)
}

/// A fully matched line: the nodes from the root to the command that was
/// named, and the values bound to its arguments in the order they were read.
#[derive(Clone, Debug, PartialEq, Eq)]
pub struct ParsedCommand {
    pub path: Vec<usize>,
    pub bound: Vec<Binding>,
}

/// The mathematical content of a `ParsedCommand`.
pub struct CommandView {
    pub path: Seq<usize>,
    pub bound: Seq<BoundView>,
}

impl View for ParsedCommand {
    type V = CommandView;

    open spec fn view(&self) -> CommandView {
        CommandView { path: self.path@, bound: bound_view(self.bound@) }
    }
}

/// Why a sequence of words does not match the tree.  `path` holds the nodes
/// matched up to the failure; the children of its last node are what was
/// expected there.
#[derive(Clone, Debug, PartialEq, Eq)]
pub enum GrammarError {
    /// The word at `index` names no subcommand, no flag, and no positional is
    /// left to take it.
    UnexpectedToken { token: String, index: usize, path: Vec<usize> },
    /// The word at `index` is not among the values that `node` accepts.
    InvalidValue { token: String, index: usize, path: Vec<usize>, node: usize },
    /// A required flag or positional called `name` got no value.
    MissingRequired { name: String, path: Vec<usize> },
    /// The words end at a command that has subcommands.
    MissingSubcommand { path: Vec<usize> },
}

/// The mathematical content of a `GrammarError`.
pub enum ErrorView {
    UnexpectedToken { token: Seq<char>, index: usize, path: Seq<usize> },
    InvalidValue { token: Seq<char>, index: usize, path: Seq<usize>, node: usize },
    MissingRequired { name: Seq<char>, path: Seq<usize> },
    MissingSubcommand { path: Seq<usize> },
}

impl View for GrammarError {
    type V = ErrorView;

    open spec fn view(&self) -> ErrorView {
        match *self {
            GrammarError::UnexpectedToken { token, index, path } => ErrorView::UnexpectedToken {
                token: token@,
                index,
                path: path@,
            },
            GrammarError::InvalidValue { token, index, path, node } => ErrorView::InvalidValue {
                token: token@,
                index,
                path: path@,
                node,
            },
            GrammarError::MissingRequired { name, path } => ErrorView::MissingRequired {
                name: name@,
                path: path@,
            },
            GrammarError::MissingSubcommand { path } => ErrorView::MissingSubcommand {
                path: path@,
            },
        }
    }
}

/// What became of one line.  Exactly one variant holds.
#[derive(Clone, Debug, PartialEq, Eq)]
pub enum ParseOutcome {
    Command(ParsedCommand),
    EmptyInput,
    LexError(LexError),
    GrammarError(GrammarError),
}

/// The mathematical content of a `ParseOutcome`.
pub enum OutcomeView {
    Command(CommandView),
    EmptyInput,
    LexError(LexError),
    GrammarError(ErrorView),
}

impl View for ParseOutcome {
    type V = OutcomeView;

    open spec fn view(&self) -> OutcomeView {
        match *self {
            ParseOutcome::Command(c) => OutcomeView::Command(c@),
            ParseOutcome::EmptyInput => OutcomeView::EmptyInput,
            ParseOutcome::LexError(e) => OutcomeView::LexError(e),
            ParseOutcome::GrammarError(e) => OutcomeView::GrammarError(e@),
        }
    }
}

/// Whether some binding is filed under `node`.
pub open spec fn holds(bound: Seq<BoundView>, node: usize) -> bool {
    exists|j: int| 0 <= j < bound.len() && (#[trigger] bound[j]).node == node
}

/// The first position at or after `from` among the children of `node` of a
/// required flag or positional that `bound` holds nothing for.
pub open spec fn owed(g: Seq<NodeView>, node: int, bound: Seq<BoundView>, from: int) -> Option<
    int,
>
    decreases g[node].children.len() - from,
{
    if from < 0 || from >= g[node].children.len() {
        None
    } else {
        let c = g[node].children[from];
        if g[c as int].kind != NodeKind::Command && g[c as int].required && !holds(bound, c) {
            Some(from)
        } else {
            owed(g, node, bound, from + 1)
        }
    }
}

/// The outcome once every word is consumed at the command that ends `path`.
pub open spec fn finish(g: Seq<NodeView>, path: Seq<usize>, bound: Seq<BoundView>) -> OutcomeView {
    let cur = path.last() as int;
    match owed(g, cur, bound, 0) {
        Some(k) => OutcomeView::GrammarError(
            ErrorView::MissingRequired { name: g[g[cur].children[k] as int].name, path },
        ),
        None => OutcomeView::Command(CommandView { path, bound }),
    }
}

/// Binding the words from `i` on to the arguments of the command that ends
/// `path`.  A word that spells a flag goes to the first such flag, which
/// takes the next word where it has a value; any other word goes to the
/// first positional at or after child position `pos`.
pub open spec fn bind(
    g: Seq<NodeView>,
    toks: Seq<Seq<char>>,
    i: int,
    path: Seq<usize>,
    pos: int,
    bound: Seq<BoundView>,
) -> OutcomeView
    decreases toks.len() - i,
{
    let cur = path.last() as int;
    if i < 0 || i >= toks.len() {
        finish(g, path, bound)
    } else {
        match first_fit(g, cur, WantView::Flag(toks[i]), 0) {
            Some(k) => {
                let f = g[cur].children[k];
                if !g[f as int].takes_value {
                    bind(g, toks, i + 1, path, pos, bound.push(BoundView { node: f, value: None }))
                } else if i + 1 >= toks.len() {
                    OutcomeView::GrammarError(
                        ErrorView::MissingRequired { name: g[f as int].name, path },
                    )
                } else if !allowed(g[f as int], toks[i + 1]) {
                    OutcomeView::GrammarError(
                        ErrorView::InvalidValue {
                            token: toks[i + 1],
                            index: (i + 1) as usize,
                            path,
                            node: f,
                        },
                    )
                } else {
                    bind(
                        g,
                        toks,
                        i + 2,
                        path,
                        pos,
                        bound.push(BoundView { node: f, value: Some(toks[i + 1]) }),
                    )
                }
            },
            None => match first_fit(g, cur, WantView::Positional, pos) {
                None => OutcomeView::GrammarError(
                    ErrorView::UnexpectedToken { token: toks[i], index: i as usize, path },
                ),
                Some(k) => {
                    let p = g[cur].children[k];
                    if !allowed(g[p as int], toks[i]) {
                        OutcomeView::GrammarError(
                            ErrorView::InvalidValue {
                                token: toks[i],
                                index: i as usize,
                                path,
                                node: p,
                            },
                        )
                    } else {
                        bind(
                            g,
                            toks,
                            i + 1,
                            path,
                            if g[p as int].multiple {
                                k
                            } else {
                                k + 1
                            },
                            bound.push(BoundView { node: p, value: Some(toks[i]) }),
                        )
                    }
                },
            },
        }
    }
}

/// Walking down the tree from the command that ends `path`.  While that
/// command has subcommands the next word must name one of them exactly; at a
/// command without subcommands the remaining words are bound.
pub open spec fn descend(g: Seq<NodeView>, toks: Seq<Seq<char>>, i: int, path: Seq<usize>) -> OutcomeView
    decreases toks.len() - i,
{
    let cur = path.last() as int;
    if first_fit(g, cur, WantView::AnyCommand, 0).is_none() {
        bind(g, toks, i, path, 0, Seq::empty())
    } else if i < 0 || i >= toks.len() {
        OutcomeView::GrammarError(ErrorView::MissingSubcommand { path })
    } else {
        match first_fit(g, cur, WantView::Command(toks[i]), 0) {
            Some(k) => descend(g, toks, i + 1, path.push(g[cur].children[k])),
            None => OutcomeView::GrammarError(
                ErrorView::UnexpectedToken { token: toks[i], index: i as usize, path },
            ),
        }
    }
}

/// What a sequence of words means against the tree `g`.
pub open spec fn spec_parse(g: Seq<NodeView>, toks: Seq<Seq<char>>) -> OutcomeView {
    if toks.len() == 0 {
        OutcomeView::EmptyInput
    } else {
        descend(g, toks, 0, seq![0usize])
    }
}

/// What a raw line means against the tree `g`.
pub open spec fn spec_parse_line(g: Seq<NodeView>, line: Seq<u8>) -> OutcomeView {
    match shell_words(line) {
        None => OutcomeView::LexError(LexError::UnterminatedQuote),
        Some(toks) => spec_parse(g, toks),
    }
}

/// Whether every value in `bound` is one that the node it is filed under
/// accepts.
pub open spec fn values_allowed(g: Seq<NodeView>, bound: Seq<BoundView>) -> bool {
    forall|j: int|
        0 <= j < bound.len() ==> match (#[trigger] bound[j]).value {
            Some(v) => allowed(g[bound[j].node as int], v),
            None => true,
        }
}

/// Whether the node after position `m` of `path` is a command among the
/// children of the node at `m`.
pub open spec fn linked(g: Seq<NodeView>, path: Seq<usize>, m: int) -> bool {
    g[path[m + 1] as int].kind == NodeKind::Command && g[path[m] as int].children.contains(
        path[m + 1],
    )
}

/// Whether `path` leads down the tree: each node after the first is a
/// command among the children of the node before it.
pub open spec fn is_path(g: Seq<NodeView>, path: Seq<usize>) -> bool {
    forall|m: int| 0 <= m < path.len() - 1 ==> #[trigger] linked(g, path, m)
}

/// A command that comes out of binding keeps the path, owes no required
/// argument, and holds only values that their nodes accept.
pub proof fn bound_command_is_complete(
    g: Seq<NodeView>,
    toks: Seq<Seq<char>>,
    i: int,
    path: Seq<usize>,
    pos: int,
    bound: Seq<BoundView>,
)
    requires
        values_allowed(g, bound),
        bind(g, toks, i, path, pos, bound) is Command,
    ensures
        bind(g, toks, i, path, pos, bound)->Command_0.path == path,
        owed(g, path.last() as int, bind(g, toks, i, path, pos, bound)->Command_0.bound, 0)
            is None,
        values_allowed(g, bind(g, toks, i, path, pos, bound)->Command_0.bound),
    decreases toks.len() - i,
{
    let cur = path.last() as int;
    if 0 <= i < toks.len() {
        match first_fit(g, cur, WantView::Flag(toks[i]), 0) {
            Some(k) => {
                let f = g[cur].children[k];
                if !g[f as int].takes_value {
                    bound_command_is_complete(
                        g,
                        toks,
                        i + 1,
                        path,
                        pos,
                        bound.push(BoundView { node: f, value: None }),
                    );
                } else {
                    bound_command_is_complete(
                        g,
                        toks,
                        i + 2,
                        path,
                        pos,
                        bound.push(BoundView { node: f, value: Some(toks[i + 1]) }),
                    );
                }
            },
            None => {
                let k = first_fit(g, cur, WantView::Positional, pos)->Some_0;
                let p = g[cur].children[k];
                bound_command_is_complete(
                    g,
                    toks,
                    i + 1,
                    path,
                    if g[p as int].multiple {
                        k
                    } else {
                        k + 1
                    },
                    bound.push(BoundView { node: p, value: Some(toks[i]) }),
                );
            },
        }
    }
}

/// A command that comes out of the walk from `path` extends `path` down
/// the tree to a command without subcommands, owes no required argument, and
/// holds only values that their nodes accept.
pub proof fn walked_command_is_complete(
    g: Seq<NodeView>,
    toks: Seq<Seq<char>>,
    i: int,
    path: Seq<usize>,
)
    requires
        path.len() > 0,
        is_path(g, path),
        descend(g, toks, i, path) is Command,
    ensures
        ({
            let c = descend(g, toks, i, path)->Command_0;
            &&& c.path.len() >= path.len()
            &&& c.path[0] == path[0]
            &&& is_path(g, c.path)
            &&& first_fit(g, c.path.last() as int, WantView::AnyCommand, 0) is None
            &&& owed(g, c.path.last() as int, c.bound, 0) is None
            &&& values_allowed(g, c.bound)
        }),
    decreases toks.len() - i,
{
    let cur = path.last() as int;
    if first_fit(g, cur, WantView::AnyCommand, 0).is_none() {
        bound_command_is_complete(g, toks, i, path, 0, Seq::empty());
    } else {
        let k = first_fit(g, cur, WantView::Command(toks[i]), 0)->Some_0;
        first_fit_fits(g, cur, WantView::Command(toks[i]), 0);
        let child = g[cur].children[k];
        let longer = path.push(child);
        assert(g[cur].children[k] == child);
        assert forall|m: int| 0 <= m < longer.len() - 1 implies #[trigger] linked(
            g,
            longer,
            m,
        ) by {
            if m < path.len() - 1 {
                assert(linked(g, path, m));
            }
        }
        walked_command_is_complete(g, toks, i + 1, longer);
    }
}

/// A parsed command is a full match: its path leads from the root down the
/// tree to a command without subcommands, no required flag or positional of
/// that command is left without a value, and every value is one that its
/// node accepts.
pub proof fn parsed_command_is_complete(g: Seq<NodeView>, toks: Seq<Seq<char>>)
    requires
        spec_parse(g, toks) is Command,
    ensures
        ({
            let c = spec_parse(g, toks)->Command_0;
            &&& c.path.len() > 0
            &&& c.path[0] == 0
            &&& is_path(g, c.path)
            &&& first_fit(g, c.path.last() as int, WantView::AnyCommand, 0) is None
            &&& owed(g, c.path.last() as int, c.bound, 0) is None
            &&& values_allowed(g, c.bound)
        }),
{
    walked_command_is_complete(g, toks, 0, seq![0usize]);
}

/// Whether `bound` holds a binding for `node`.
pub fn is_bound(bound: &Vec<Binding>, node: usize) -> (res: bool)
    ensures
        res == holds(bound_view(bound@), node),
{
    let mut j: usize = 0;
    while j < bound.len()
        invariant
            j <= bound.len(),
            forall|m: int| 0 <= m < j ==> (#[trigger] bound_view(bound@)[m]).node != node,
        decreases bound.len() - j,
    {
        if bound[j].node == node {
            assert(bound_view(bound@)[j as int].node == node);
            return true;
        }
        j = j + 1;
    }
    false
}

/// Matches `tokens` against the tree, left to right from the root.
pub fn parse(g: &Grammar, tokens: &Vec<Token>) -> (out: ParseOutcome)
    requires
        g.wf(),
    ensures
        out@ == spec_parse(g@, token_texts(tokens@)),
{
    if tokens.len() == 0 {
        return ParseOutcome::EmptyInput;
    }
    let ghost toks = token_texts(tokens@);
    let mut path: Vec<usize> = Vec::new();
    path.push(0);
    assert(path@ =~= seq![0usize]);
    let mut cur: usize = 0;
    let mut i: usize = 0;
    let mut inner: bool = g.find_child(cur, &Want::AnyCommand, 0).is_some();
    while inner
        invariant
            g.wf(),
            toks == token_texts(tokens@),
            i <= tokens.len(),
            path@.len() > 0,
            cur == path@.last(),
            cur < g@.len(),
            inner == first_fit(g@, cur as int, WantView::AnyCommand, 0).is_some(),
            spec_parse(g@, toks) == descend(g@, toks, i as int, path@),
        decreases tokens.len() - i,
    {
        if i >= tokens.len() {
            return ParseOutcome::GrammarError(GrammarError::MissingSubcommand { path });
        }
        match g.find_child(cur, &Want::Command(&tokens[i].text), 0) {
            None => {
                return ParseOutcome::GrammarError(
                    GrammarError::UnexpectedToken { token: tokens[i].text.clone(), index: i, path },
                );
            },
            Some(k) => {
                cur = g.at(cur).children[k];
                path.push(cur);
                i = i + 1;
                inner = g.find_child(cur, &Want::AnyCommand, 0).is_some();
            },
        }
    }
    let mut pos: usize = 0;
    let mut bound: Vec<Binding> = Vec::new();
    assert(bound_view(bound@) =~= Seq::empty());
    while i < tokens.len()
        invariant
            g.wf(),
            toks == token_texts(tokens@),
            i <= tokens.len(),
            path@.len() > 0,
            cur == path@.last(),
            cur < g@.len(),
            pos <= g@[cur as int].children.len(),
            spec_parse(g@, toks) == bind(
                g@,
                toks,
                i as int,
                path@,
                pos as int,
                bound_view(bound@),
            ),
        decreases tokens.len() - i,
    {
        let ghost before = bound_view(bound@);
        match g.find_child(cur, &Want::Flag(&tokens[i].text), 0) {
            Some(k) => {
                let f = g.at(cur).children[k];
                let flag = g.at(f);
                if !flag.takes_value {
                    bound.push(Binding { node: f, value: None });
                    assert(bound_view(bound@) =~= before.push(
                        BoundView { node: f, value: None },
                    ));
                    i = i + 1;
                } else if i + 1 >= tokens.len() {
                    return ParseOutcome::GrammarError(
                        GrammarError::MissingRequired { name: flag.name.clone(), path },
                    );
                } else if !flag.accepts(&tokens[i + 1].text) {
                    return ParseOutcome::GrammarError(
                        GrammarError::InvalidValue {
                            token: tokens[i + 1].text.clone(),
                            index: i + 1,
                            path,
                            node: f,
                        },
                    );
                } else {
                    bound.push(Binding { node: f, value: Some(tokens[i + 1].text.clone()) });
                    assert(bound_view(bound@) =~= before.push(
                        BoundView { node: f, value: Some(toks[i + 1]) },
                    ));
                    i = i + 2;
                }
            },
            None => match g.find_child(cur, &Want::Positional, pos) {
                None => {
                    return ParseOutcome::GrammarError(
                        GrammarError::UnexpectedToken { token: tokens[i].text.clone(), index: i, path },
                    );
                },
                Some(k) => {
                    let kids = &g.at(cur).children;
                    assert(k < kids.len());
                    let p = kids[k];
                    let arg = g.at(p);
                    if !arg.accepts(&tokens[i].text) {
                        return ParseOutcome::GrammarError(
                            GrammarError::InvalidValue {
                                token: tokens[i].text.clone(),
                                index: i,
                                path,
                                node: p,
                            },
                        );
                    }
                    bound.push(Binding { node: p, value: Some(tokens[i].text.clone()) });
                    assert(bound_view(bound@) =~= before.push(
                        BoundView { node: p, value: Some(toks[i as int]) },
                    ));
                    pos = if arg.multiple {
                        k
                    } else {
                        k + 1
                    };
                    i = i + 1;
                },
            },
        }
    }
    let kids = &g.at(cur).children;
    let mut k: usize = 0;
    while k < kids.len()
        invariant
            g.wf(),
            cur < g@.len(),
            kids@ == g@[cur as int].children,
            k <= kids.len(),
            toks == token_texts(tokens@),
            path@.len() > 0,
            cur == path@.last(),
            spec_parse(g@, toks) == finish(g@, path@, bound_view(bound@)),
            owed(g@, cur as int, bound_view(bound@), 0) == owed(
                g@,
                cur as int,
                bound_view(bound@),
                k as int,
            ),
        decreases kids.len() - k,
    {
        let child = g.at(kids[k]);
        if child.kind != NodeKind::Command && child.required && !is_bound(&bound, kids[k]) {
            let name = child.name.clone();
            return ParseOutcome::GrammarError(
                GrammarError::MissingRequired { name, path },
            );
        }
        k = k + 1;
    }
    ParseOutcome::Command(ParsedCommand { path, bound })
}

/// Splits `line` into words and matches them against the tree.
pub fn parse_line(g: &Grammar, line: &str) -> (out: ParseOutcome)
    requires
        g.wf(),
    ensures
        out@ == spec_parse_line(g@, line.spec_bytes()),
{
    match tokenize(line) {
        Ok(tokens) => parse(g, &tokens),
        Err(e) => ParseOutcome::LexError(e),
    }
}

} // verus!
