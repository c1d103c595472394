//! Completion at a cursor position, driven by the command tree.

use vstd::prelude::*;
use vstd::string::*;
use vstd::utf8::{encode_utf8, is_char_boundary};
use crate::grammar::{
    allowed, choices, first_fit, first_fit_finds, fits, opt_text, ChoiceView, Grammar, NodeKind, NodeView, ValueChoice, Want,
    WantView,
};
use crate::lexer::{
    ends_in_open_space, ends_with_open_space, spec_tokenize, token_texts, token_views,
    tokenize, Token, TokenView,
};

verus! {

/// A line and the byte offset of the cursor in it.
#[derive(Clone, Debug, PartialEq, Eq)]
pub struct CompletionRequest {
    pub line: String,
    pub cursor: usize,
}

/// One suggestion: the text to put in place of the bytes `start..end` of the
/// line, and whether a space should follow it.
#[derive(Clone, Debug, PartialEq, Eq)]
pub struct CompletionCandidate {
    pub replacement_text: String,
    pub description: Option<String>,
    pub start: usize,
    pub end: usize,
    pub append_trailing_space: bool,
}

/// The mathematical content of a `CompletionCandidate`.
pub struct CandidateView {
    pub replacement_text: Seq<char>,
    pub description: Option<Seq<char>>,
    pub start: int,
    pub end: int,
    pub append_trailing_space: bool,
}

impl View for CompletionCandidate {
    type V = CandidateView;

    open spec fn view(&self) -> CandidateView {
        CandidateView {
            replacement_text: self.replacement_text@,
            description: opt_text(self.description),
            start: self.start as int,
            end: self.end as int,
            append_trailing_space: self.append_trailing_space,
        }
    }
}

/// The contents of a list of candidates.
pub open spec fn cand_view(c: Seq<CompletionCandidate>) -> Seq<CandidateView> {
    Seq::new(c.len(), |j: int| c[j]@)
}

/// Where in the tree the word under the cursor stands.
#[derive(Clone, Debug, PartialEq, Eq)]
pub enum Slot {
    /// A subcommand of `node` is expected.
    Commands { node: usize },
    /// The value of flag `node` is expected.
    Value { node: usize },
    /// A flag of command `node` that is not among `used`, or a value of its
    /// first positional at or after child position `pos`, is expected.
    Arguments { node: usize, pos: usize, used: Vec<usize> },
}

/// The mathematical content of a `Slot`.
pub enum SlotView {
    Commands { node: usize },
    Value { node: usize },
    Arguments { node: usize, pos: int, used: Seq<usize> },
}

impl View for Slot {
    type V = SlotView;

    open spec fn view(&self) -> SlotView {
        match *self {
            Slot::Commands { node } => SlotView::Commands { node },
            Slot::Value { node } => SlotView::Value { node },
            Slot::Arguments { node, pos, used } => SlotView::Arguments {
                node,
                pos: pos as int,
                used: used@,
            },
        }
    }
}

/// The slot reached at command `cur`, which has no subcommands, once the
/// committed words from `i` on are read as the parser reads them, but
/// without judging them: a word after a flag with a value is that value, a
/// word that spells a flag marks it used, any other word fills a
/// positional, and a word that fits nowhere is passed over.
pub open spec fn settle(
    g: Seq<NodeView>,
    toks: Seq<Seq<char>>,
    i: int,
    cur: usize,
    pos: int,
    used: Seq<usize>,
    pending: Option<usize>,
) -> SlotView
    decreases toks.len() - i,
{
    if i < 0 || i >= toks.len() {
        match pending {
            Some(f) => SlotView::Value { node: f },
            None => SlotView::Arguments { node: cur, pos, used },
        }
    } else if pending.is_some() {
        settle(g, toks, i + 1, cur, pos, used, None)
    } else {
        match first_fit(g, cur as int, WantView::Flag(toks[i]), 0) {
            Some(k) => {
                let f = g[cur as int].children[k];
                settle(
                    g,
                    toks,
                    i + 1,
                    cur,
                    pos,
                    used.push(f),
                    if g[f as int].takes_value {
                        Some(f)
                    } else {
                        None
                    },
                )
            },
            None => match first_fit(g, cur as int, WantView::Positional, pos) {
                Some(k) => settle(
                    g,
                    toks,
                    i + 1,
                    cur,
                    if g[g[cur as int].children[k] as int].multiple {
                        k
                    } else {
                        k + 1
                    },
                    used,
                    None,
                ),
                None => settle(g, toks, i + 1, cur, pos, used, None),
            },
        }
    }
}

/// The slot reached from command `cur` by the committed words from `i` on.
/// A word that names no subcommand where one is expected ends the walk at
/// the deepest command matched.
pub open spec fn arrive(g: Seq<NodeView>, toks: Seq<Seq<char>>, i: int, cur: usize) -> SlotView
    decreases toks.len() - i,
{
    if first_fit(g, cur as int, WantView::AnyCommand, 0).is_none() {
        settle(g, toks, i, cur, 0, Seq::empty(), None)
    } else if i < 0 || i >= toks.len() {
        SlotView::Commands { node: cur }
    } else {
        match first_fit(g, cur as int, WantView::Command(toks[i]), 0) {
            Some(k) => arrive(g, toks, i + 1, g[cur as int].children[k]),
            None => SlotView::Commands { node: cur },
        }
    }
}

/// The literals of a node's closed value set; none where it has no such set.
pub open spec fn value_offers(n: NodeView) -> Seq<ChoiceView> {
    match n.values {
        Some(vs) => vs,
        None => Seq::empty(),
    }
}

/// A spelling, where there is one, with a description.
pub open spec fn spelled(text: Option<Seq<char>>, description: Option<Seq<char>>) -> Seq<
    ChoiceView,
> {
    match text {
        Some(t) => seq![ChoiceView { literal: t, description }],
        None => Seq::empty(),
    }
}

/// What child `id` with content `n` contributes: its name where commands
/// are expected and it is one; else its long and short spelling where it is
/// a flag that may still be given.
pub open spec fn child_offers(n: NodeView, id: usize, commands: bool, used: Seq<usize>) -> Seq<
    ChoiceView,
> {
    if commands {
        if n.kind == NodeKind::Command {
            seq![ChoiceView { literal: n.name, description: n.description }]
        } else {
            Seq::empty()
        }
    } else if n.kind == NodeKind::Flag && (n.multiple || !used.contains(id)) {
        spelled(n.long, n.description) + spelled(n.short, n.description)
    } else {
        Seq::empty()
    }
}

/// What the first `k` children of `node` contribute, in declaration order.
pub open spec fn offers_upto(
    g: Seq<NodeView>,
    node: int,
    commands: bool,
    used: Seq<usize>,
    k: int,
) -> Seq<ChoiceView>
    decreases k,
{
    if k <= 0 {
        Seq::empty()
    } else {
        let id = g[node].children[k - 1];
        offers_upto(g, node, commands, used, k - 1) + child_offers(
            g[id as int],
            id,
            commands,
            used,
        )
    }
}

/// The node that a slot speaks of.
pub open spec fn slot_node(slot: SlotView) -> usize {
    match slot {
        SlotView::Commands { node } => node,
        SlotView::Value { node } => node,
        SlotView::Arguments { node, .. } => node,
    }
}

/// Everything that may stand in a slot, before the word under the cursor
/// narrows it; nothing where the slot names no node of the tree.
pub open spec fn slot_offers(g: Seq<NodeView>, slot: SlotView) -> Seq<ChoiceView> {
    if slot_node(slot) >= g.len() {
        Seq::empty()
    } else {
        match slot {
            SlotView::Commands { node } => offers_upto(
                g,
                node as int,
                true,
                Seq::empty(),
                g[node as int].children.len() as int,
            ),
            SlotView::Value { node } => value_offers(g[node as int]),
            SlotView::Arguments { node, pos, used } => offers_upto(
                g,
                node as int,
                false,
                used,
                g[node as int].children.len() as int,
            ) + match first_fit(g, node as int, WantView::Positional, pos) {
                Some(k) => value_offers(g[g[node as int].children[k] as int]),
                None => Seq::empty(),
            },
        }
    }
}

/// Those of the first `k` offers whose text starts with `live`, in order.
pub open spec fn kept(offers: Seq<ChoiceView>, live: Seq<char>, k: int) -> Seq<ChoiceView>
    decreases k,
{
    if k <= 0 {
        Seq::empty()
    } else if live.is_prefix_of(offers[k - 1].literal) {
        kept(offers, live, k - 1).push(offers[k - 1])
    } else {
        kept(offers, live, k - 1)
    }
}

/// Whether `a` is a prefix of `b` and shorter.
pub open spec fn proper_prefix(a: Seq<char>, b: Seq<char>) -> bool {
    a.is_prefix_of(b) && a != b
}

/// Whether one of the first `m` offers is a longer text that starts with
/// offer `j`.
pub open spec fn outgrown(offers: Seq<ChoiceView>, j: int, m: int) -> bool {
    exists|t: int| 0 <= t < m && proper_prefix(offers[j].literal, (#[trigger] offers[t]).literal)
}

/// The candidates made of `offers` for the span `start..end`.  A space
/// follows a candidate unless a longer one starts with it.
pub open spec fn candidates(offers: Seq<ChoiceView>, start: int, end: int) -> Seq<
    CandidateView,
> {
    Seq::new(
        offers.len(),
        |j: int|
            CandidateView {
                replacement_text: offers[j].literal,
                description: offers[j].description,
                start,
                end,
                append_trailing_space: !outgrown(offers, j, offers.len() as int),
            },
    )
}

/// The word under the cursor, and the number of words before it.
#[derive(Clone, Debug, PartialEq, Eq)]
pub struct Live {
    pub token: Token,
    pub committed: usize,
}

/// The mathematical content of a `Live`.
pub struct LiveView {
    pub token: TokenView,
    pub committed: int,
}

impl View for Live {
    type V = LiveView;

    open spec fn view(&self) -> LiveView {
        LiveView { token: self.token@, committed: self.committed as int }
    }
}

/// The texts of tokens given as values.
pub open spec fn view_texts(tokens: Seq<TokenView>) -> Seq<Seq<char>> {
    Seq::new(tokens.len(), |i: int| tokens[i].text)
}

/// The word under a cursor at the end of `prefix`, whose tokens are
/// `tokens`.  The last token is being edited where it reaches up to the
/// cursor and `prefix` does not end in an unescaped separator; else a new
/// and empty word starts at the cursor.
pub open spec fn spec_live(prefix: Seq<u8>, tokens: Seq<TokenView>) -> LiveView {
    if tokens.len() == 0 || ends_in_open_space(prefix) || tokens.last().end != prefix.len() {
        LiveView {
            token: TokenView {
                text: Seq::empty(),
                start: prefix.len() as int,
                end: prefix.len() as int,
            },
            committed: tokens.len() as int,
        }
    } else {
        LiveView { token: tokens.last(), committed: tokens.len() - 1 }
    }
}

/// The first `count` of `words`; all of them where there are no more.
pub open spec fn first_words(words: Seq<Seq<char>>, count: int) -> Seq<Seq<char>> {
    if count >= words.len() {
        words
    } else {
        words.take(count)
    }
}

/// The candidates for a live word that follows the first `live.committed`
/// of `words`: what the tree allows after those words, narrowed to what
/// starts with the live text, for the span of the live word.
pub open spec fn spec_complete_words(g: Seq<NodeView>, words: Seq<Seq<char>>, live: LiveView) -> Seq<
    CandidateView,
> {
    let offers = slot_offers(g, arrive(g, first_words(words, live.committed), 0, 0));
    candidates(kept(offers, live.token.text, offers.len() as int), live.token.start, live.token.end)
}

/// The candidates for a line, given as UTF-8 bytes, and a cursor: none where
/// the cursor is past the end or inside a character, and none where the
/// prefix up to the cursor has an open quote or ends in a lone backslash.
pub open spec fn spec_complete(g: Seq<NodeView>, line: Seq<u8>, cursor: usize) -> Seq<
    CandidateView,
> {
    if cursor > line.len() || !is_char_boundary(line, cursor as int) {
        Seq::empty()
    } else {
        let prefix = line.take(cursor as int);
        match spec_tokenize(prefix) {
            Err(_) => Seq::empty(),
            Ok(tokens) => spec_complete_words(g, view_texts(tokens), spec_live(prefix, tokens)),
        }
    }
}

/// Everything kept begins with the live text.
pub proof fn kept_begin_with_live(offers: Seq<ChoiceView>, live: Seq<char>, k: int)
    ensures
        forall|j: int|
            0 <= j < kept(offers, live, k).len() ==> live.is_prefix_of(
                (#[trigger] kept(offers, live, k)[j]).literal,
            ),
    decreases k,
{
    if k > 0 {
        kept_begin_with_live(offers, live, k - 1);
    }
}

/// Every candidate begins with the text of the live word and replaces
/// exactly the bytes of the live word.
pub proof fn candidates_extend_live(
    g: Seq<NodeView>,
    words: Seq<Seq<char>>,
    live: LiveView,
    j: int,
)
    requires
        0 <= j < spec_complete_words(g, words, live).len(),
    ensures
        live.token.text.is_prefix_of(spec_complete_words(g, words, live)[j].replacement_text),
        spec_complete_words(g, words, live)[j].start == live.token.start,
        spec_complete_words(g, words, live)[j].end == live.token.end,
{
    let offers = slot_offers(g, arrive(g, first_words(words, live.committed), 0, 0));
    kept_begin_with_live(offers, live.token.text, offers.len() as int);
}

/// What the first `k` children contribute where commands are expected are
/// names of commands among them.
pub proof fn command_offers_are_children(g: Seq<NodeView>, node: int, k: int, j: int)
    requires
        0 <= k <= g[node].children.len(),
        0 <= j < offers_upto(g, node, true, Seq::empty(), k).len(),
    ensures
        exists|m: int|
            0 <= m < k && fits(
                g[#[trigger] g[node].children[m] as int],
                WantView::Command(offers_upto(g, node, true, Seq::empty(), k)[j].literal),
            ),
    decreases k,
{
    let id = g[node].children[k - 1];
    let before = offers_upto(g, node, true, Seq::empty(), k - 1);
    if j < before.len() {
        command_offers_are_children(g, node, k - 1, j);
        let m = choose|m: int|
            0 <= m < k - 1 && fits(
                g[#[trigger] g[node].children[m] as int],
                WantView::Command(before[j].literal),
            );
        assert(fits(g[g[node].children[m] as int], WantView::Command(before[j].literal)));
    } else {
        assert(fits(g[g[node].children[k - 1] as int], WantView::Command(g[id as int].name)));
    }
}

/// The parser and completion agree on subcommands: a name that completion
/// offers where a subcommand of `node` is expected is one that the parser
/// accepts there.
pub proof fn offered_command_is_accepted(g: Seq<NodeView>, node: usize, j: int)
    requires
        node < g.len(),
        0 <= j < slot_offers(g, SlotView::Commands { node }).len(),
    ensures
        first_fit(
            g,
            node as int,
            WantView::Command(slot_offers(g, SlotView::Commands { node })[j].literal),
            0,
        ) is Some,
{
    let n = g[node as int].children.len() as int;
    command_offers_are_children(g, node as int, n, j);
    let name = slot_offers(g, SlotView::Commands { node })[j].literal;
    let m = choose|m: int|
        0 <= m < n && fits(g[#[trigger] g[node as int].children[m] as int], WantView::Command(name));
    first_fit_finds(g, node as int, WantView::Command(name), 0, m);
}

/// The parser and completion agree on values: a literal that completion
/// offers as a value of a node is one that the parser accepts for it.
pub proof fn offered_value_is_accepted(n: NodeView, j: int)
    requires
        0 <= j < value_offers(n).len(),
    ensures
        allowed(n, value_offers(n)[j].literal),
{
    let vs = n.values->Some_0;
    assert(vs[j].literal == value_offers(n)[j].literal);
}

/// Calls `str::starts_with` with a string pattern: whether `text` begins
/// with `prefix`.
#[verifier::external_body]
fn has_prefix(text: &str, prefix: &str) -> (res: bool)
    ensures
        res == prefix@.is_prefix_of(text@),
{
    text.starts_with(prefix)
}

/// A copy of an optional string.
fn clone_opt(o: &Option<String>) -> (res: Option<String>)
    ensures
        opt_text(res) == opt_text(*o),
{
    match o {
        Some(s) => Some(s.clone()),
        None => None,
    }
}

/// Whether `id` occurs in `used`.
fn is_used(used: &Vec<usize>, id: usize) -> (res: bool)
    ensures
        res == used@.contains(id),
{
    let mut j: usize = 0;
    while j < used.len()
        invariant
            j <= used.len(),
            forall|m: int| 0 <= m < j ==> used@[m] != id,
        decreases used.len() - j,
    {
        if used[j] == id {
            return true;
        }
        j = j + 1;
    }
    false
}

/// Appends copies of `vs` to `out`.
fn append_values(out: &mut Vec<ValueChoice>, vs: &Vec<ValueChoice>)
    ensures
        choices(final(out)@) == choices(old(out)@) + choices(vs@),
{
    let ghost base = choices(out@);
    let mut j: usize = 0;
    while j < vs.len()
        invariant
            j <= vs.len(),
            choices(out@) == base + choices(vs@).take(j as int),
        decreases vs.len() - j,
    {
        let ghost before = choices(out@);
        let item = ValueChoice {
            literal: vs[j].literal.clone(),
            description: clone_opt(&vs[j].description),
        };
        out.push(item);
        assert(choices(out@) =~= before.push(choices(vs@)[j as int]));
        assert(choices(out@) =~= base + choices(vs@).take(j + 1));
        j = j + 1;
    }
    assert(choices(vs@).take(vs@.len() as int) =~= choices(vs@));
}

/// Walks the tree from the root along the first `upto` of `words`, or
/// along all of them where there are no more, and returns the slot that
/// the next word would stand in.
pub fn resolve(g: &Grammar, words: &Vec<Token>, upto: usize) -> (slot: Slot)
    requires
        g.wf(),
    ensures
        slot@ == arrive(g@, first_words(token_texts(words@), upto as int), 0, 0),
        slot_node(slot@) < g@.len(),
{
    let count = if upto < words.len() {
        upto
    } else {
        words.len()
    };
    assert(token_texts(words@).take(words@.len() as int) =~= token_texts(words@));
    let ghost toks = token_texts(words@).take(count as int);
    let mut cur: usize = 0;
    let mut i: usize = 0;
    let mut inner: bool = g.find_child(cur, &Want::AnyCommand, 0).is_some();
    while inner
        invariant
            g.wf(),
            toks == token_texts(words@).take(count as int),
            toks == first_words(token_texts(words@), upto as int),
            i <= count <= words@.len(),
            cur < g@.len(),
            inner == first_fit(g@, cur as int, WantView::AnyCommand, 0).is_some(),
            arrive(g@, toks, 0, 0) == arrive(g@, toks, i as int, cur),
        decreases count - i,
    {
        if i >= count {
            return Slot::Commands { node: cur };
        }
        match g.find_child(cur, &Want::Command(&words[i].text), 0) {
            None => {
                return Slot::Commands { node: cur };
            },
            Some(k) => {
                cur = g.at(cur).children[k];
                i = i + 1;
                inner = g.find_child(cur, &Want::AnyCommand, 0).is_some();
            },
        }
    }
    let mut pos: usize = 0;
    let mut used: Vec<usize> = Vec::new();
    let mut pending: Option<usize> = None;
    while i < count
        invariant
            g.wf(),
            toks == token_texts(words@).take(count as int),
            toks == first_words(token_texts(words@), upto as int),
            i <= count <= words@.len(),
            cur < g@.len(),
            pos <= g@[cur as int].children.len(),
            match pending {
                Some(f) => f < g@.len(),
                None => true,
            },
            arrive(g@, toks, 0, 0) == settle(
                g@,
                toks,
                i as int,
                cur,
                pos as int,
                used@,
                pending,
            ),
        decreases count - i,
    {
        if pending.is_some() {
            pending = None;
        } else {
            match g.find_child(cur, &Want::Flag(&words[i].text), 0) {
                Some(k) => {
                    let f = g.at(cur).children[k];
                    used.push(f);
                    if g.at(f).takes_value {
                        pending = Some(f);
                    }
                },
                None => match g.find_child(cur, &Want::Positional, pos) {
                    Some(k) => {
                        let kids = &g.at(cur).children;
                        assert(k < kids.len());
                        if !g.at(kids[k]).multiple {
                            pos = k + 1;
                        } else {
                            pos = k;
                        }
                    },
                    None => {},
                },
            }
        }
        i = i + 1;
    }
    match pending {
        Some(f) => Slot::Value { node: f },
        None => Slot::Arguments { node: cur, pos, used },
    }
}

/// Everything that the tree allows in `slot`, in declaration order.
pub fn offers(g: &Grammar, slot: &Slot) -> (out: Vec<ValueChoice>)
    requires
        g.wf(),
    ensures
        choices(out@) == slot_offers(g@, slot@),
{
    let mut out: Vec<ValueChoice> = Vec::new();
    assert(choices(out@) =~= Seq::empty());
    let (node, commands) = match slot {
        Slot::Commands { node } => (*node, true),
        Slot::Value { node } => (*node, false),
        Slot::Arguments { node, .. } => (*node, false),
    };
    if node >= g.len() {
        return out;
    }
    let none: Vec<usize> = Vec::new();
    let used: &Vec<usize> = match slot {
        Slot::Value { node } => {
            match &g.at(*node).values {
                Some(vs) => {
                    append_values(&mut out, vs);
                    assert(choices(out@) =~= choices(vs@));
                },
                None => {},
            }
            return out;
        },
        Slot::Arguments { used, .. } => used,
        Slot::Commands { .. } => &none,
    };
    let kids = &g.at(node).children;
    let mut k: usize = 0;
    while k < kids.len()
        invariant
            g.wf(),
            node < g@.len(),
            kids@ == g@[node as int].children,
            k <= kids.len(),
            choices(out@) == offers_upto(g@, node as int, commands, used@, k as int),
        decreases kids.len() - k,
    {
        let ghost before = choices(out@);
        let id = kids[k];
        let child = g.at(id);
        if commands {
            if child.kind == NodeKind::Command {
                out.push(
                    ValueChoice {
                        literal: child.name.clone(),
                        description: clone_opt(&child.description),
                    },
                );
            }
        } else if child.kind == NodeKind::Flag && (child.multiple || !is_used(used, id)) {
            match &child.long {
                Some(l) => {
                    out.push(
                        ValueChoice {
                            literal: l.clone(),
                            description: clone_opt(&child.description),
                        },
                    );
                },
                None => {},
            }
            match &child.short {
                Some(s) => {
                    out.push(
                        ValueChoice {
                            literal: s.clone(),
                            description: clone_opt(&child.description),
                        },
                    );
                },
                None => {},
            }
        }
        assert(choices(out@) =~= before + child_offers(child@, id, commands, used@));
        k = k + 1;
    }
    match slot {
        Slot::Arguments { pos, .. } => {
            match g.find_child(node, &Want::Positional, *pos) {
                Some(k) => {
                    match &g.at(kids[k]).values {
                        Some(vs) => {
                            append_values(&mut out, vs);
                        },
                        None => {
                            assert(choices(out@) + Seq::<ChoiceView>::empty() =~= choices(out@));
                        },
                    }
                },
                None => {
                    assert(choices(out@) + Seq::<ChoiceView>::empty() =~= choices(out@));
                },
            }
        },
        _ => {},
    }
    out
}

/// Keeps the offers whose text starts with `live`, in order.
pub fn narrow(all: &Vec<ValueChoice>, live: &String) -> (out: Vec<ValueChoice>)
    ensures
        choices(out@) == kept(choices(all@), live@, all@.len() as int),
{
    let mut out: Vec<ValueChoice> = Vec::new();
    assert(choices(out@) =~= Seq::empty());
    let mut k: usize = 0;
    while k < all.len()
        invariant
            k <= all.len(),
            choices(out@) == kept(choices(all@), live@, k as int),
        decreases all.len() - k,
    {
        let ghost before = choices(out@);
        if has_prefix(all[k].literal.as_str(), live.as_str()) {
            out.push(
                ValueChoice {
                    literal: all[k].literal.clone(),
                    description: clone_opt(&all[k].description),
                },
            );
            assert(choices(out@) =~= before.push(choices(all@)[k as int]));
        }
        k = k + 1;
    }
    out
}

/// Makes candidates of `some` for the span `start..end`.
pub fn rank(some: &Vec<ValueChoice>, start: usize, end: usize) -> (out: Vec<CompletionCandidate>)
    ensures
        cand_view(out@) == candidates(choices(some@), start as int, end as int),
        out@.len() == some@.len(),
{
    let ghost offers = choices(some@);
    let mut out: Vec<CompletionCandidate> = Vec::new();
    let mut j: usize = 0;
    while j < some.len()
        invariant
            j <= some.len(),
            offers == choices(some@),
            out@.len() == j,
            forall|t: int|
                0 <= t < j ==> (#[trigger] out@[t])@ == candidates(
                    offers,
                    start as int,
                    end as int,
                )[t],
        decreases some.len() - j,
    {
        let mut longer: bool = false;
        let mut m: usize = 0;
        while m < some.len()
            invariant
                j < some.len(),
                m <= some.len(),
                offers == choices(some@),
                longer == outgrown(offers, j as int, m as int),
            decreases some.len() - m,
        {
            if has_prefix(some[m].literal.as_str(), some[j].literal.as_str()) && !(
            some[m].literal == some[j].literal) {
                assert(proper_prefix(offers[j as int].literal, offers[m as int].literal));
                longer = true;
            }
            m = m + 1;
        }
        out.push(
            CompletionCandidate {
                replacement_text: some[j].literal.clone(),
                description: clone_opt(&some[j].description),
                start,
                end,
                append_trailing_space: !longer,
            },
        );
        j = j + 1;
    }
    assert(cand_view(out@) =~= candidates(offers, start as int, end as int));
    out
}

/// The word under a cursor at the end of `prefix`, whose tokens are
/// `tokens`.
pub fn live_token(prefix: &str, tokens: &Vec<Token>) -> (live: Live)
    ensures
        live@ == spec_live(prefix.spec_bytes(), token_views(tokens@)),
{
    let bytes = prefix.as_bytes();
    let end = bytes.len();
    let count = tokens.len();
    if count == 0 || ends_with_open_space(bytes) || tokens[count - 1].end != end {
        return Live { token: Token { text: String::new(), start: end, end }, committed: count };
    }
    let last = &tokens[count - 1];
    assert(last@ == token_views(tokens@).last());
    Live {
        token: Token { text: last.text.clone(), start: last.start, end: last.end },
        committed: count - 1,
    }
}

/// The candidates for the live word `live` after the first
/// `live.committed` of `tokens`.
pub fn complete_words(g: &Grammar, tokens: &Vec<Token>, live: &Live) -> (out: Vec<
    CompletionCandidate,
>)
    requires
        g.wf(),
    ensures
        cand_view(out@) == spec_complete_words(g@, token_texts(tokens@), live@),
{
    let slot = resolve(g, tokens, live.committed);
    let all = offers(g, &slot);
    let some = narrow(&all, &live.token.text);
    rank(&some, live.token.start, live.token.end)
}

/// The candidates for `request`, in declaration order; none where nothing
/// applies.
pub fn complete(g: &Grammar, request: &CompletionRequest) -> (out: Vec<CompletionCandidate>)
    requires
        g.wf(),
    ensures
        cand_view(out@) == spec_complete(g@, encode_utf8(request.line@), request.cursor),
{
    let line = request.line.as_str();
    let cursor = request.cursor;
    let none: Vec<CompletionCandidate> = Vec::new();
    assert(cand_view(none@) =~= Seq::empty());
    if cursor > line.as_bytes().len() || !line.is_char_boundary(cursor) {
        return none;
    }
    let (prefix, _) = line.split_at(cursor);
    assert(prefix.spec_bytes() == line.spec_bytes().take(cursor as int));
    match tokenize(prefix) {
        Err(_) => none,
        Ok(tokens) => {
            assert(token_texts(tokens@) =~= view_texts(token_views(tokens@)));
            let live = live_token(prefix, &tokens);
            complete_words(g, &tokens, &live)
        },
    }
}

} // verus!
