//! Which widgets a caller asks for.
use vstd::prelude::*;
use vstd::string::*;

use crate::id::Id;
use crate::node::{Node, NodeV};
use crate::text;

verus! {

/// The widget-matching constraints shared by a tree filter and the action targets.
///
/// An optional role plus text predicates. All are case-insensitive and combined with logical
/// AND; a query without any matches every widget.
#[derive(Debug, Clone)]
pub struct Query {
    /// Case-insensitive substring match against *either* `label` or `value`.
    pub content_contains: Option<String>,
    /// Role name, e.g. `Button`, `Label`, `TextInput` (case-insensitive).
    pub role: Option<String>,
    /// Case-insensitive substring match against the widget's `label` only.
    pub label_contains: Option<String>,
    /// Case-insensitive substring match against the widget's `value` only.
    pub value_contains: Option<String>,
}

/// What a [`Query`] holds.
pub struct QueryV {
    pub content_contains: Option<Seq<char>>,
    pub role: Option<Seq<char>>,
    pub label_contains: Option<Seq<char>>,
    pub value_contains: Option<Seq<char>>,
}

impl View for Query {
    type V = QueryV;

    open spec fn view(&self) -> QueryV {
        QueryV {
            content_contains: text::opt_view(self.content_contains),
            role: text::opt_view(self.role),
            label_contains: text::opt_view(self.label_contains),
            value_contains: text::opt_view(self.value_contains),
        }
    }
}

/// An absent text holds `needle` only if `needle` is empty.
pub open spec fn holds_ci(hay: Option<Seq<char>>, needle: Seq<char>) -> bool {
    text::occurs(text::lower(text::or_empty(hay)), text::lower(needle))
}

impl QueryV {
    pub open spec fn nothing() -> QueryV {
        QueryV { content_contains: None, role: None, label_contains: None, value_contains: None }
    }

    /// Does the node satisfy every constraint that is set?
    pub open spec fn matched_by(self, n: NodeV) -> bool {
        &&& self.content_contains matches Some(needle) ==> holds_ci(n.label, needle) || holds_ci(
            n.value,
            needle,
        )
        &&& self.role matches Some(role) ==> text::lower(role) == text::lower(n.role)
        &&& self.label_contains matches Some(needle) ==> holds_ci(n.label, needle)
        &&& self.value_contains matches Some(needle) ==> holds_ci(n.value, needle)
    }

    /// The constraints that are set, each in words.
    pub open spec fn clauses(self) -> Seq<Seq<char>> {
        clause("label or value containing `"@, self.content_contains) + clause(
            "role `"@,
            self.role,
        ) + clause("label containing `"@, self.label_contains) + clause(
            "value containing `"@,
            self.value_contains,
        )
    }

    /// The constraints in words.
    pub open spec fn words(self) -> Seq<char> {
        if self == QueryV::nothing() {
            "the locator"@
        } else {
            text::joined(self.clauses(), " and "@)
        }
    }
}

pub open spec fn clause(prefix: Seq<char>, what: Option<Seq<char>>) -> Seq<Seq<char>> {
    match what {
        Some(what) => seq![prefix + what + "`"@],
        None => Seq::empty(),
    }
}

/// Case-insensitive substring test on a text that may be absent.
pub fn opt_contains_ci(hay: &Option<String>, needle: &str) -> (r: bool)
    ensures
        r == holds_ci(text::opt_view(*hay), needle@),
{
    match hay {
        Some(hay) => text::contains_ci(hay.as_str(), needle),
        None => {
            let empty = String::new();
            text::contains_ci(empty.as_str(), needle)
        },
    }
}

/// Every text holds the empty one, and an absent text nothing else.
pub proof fn lemma_absent_text_holds_nothing(hay: Option<Seq<char>>, needle: Seq<char>)
    ensures
        holds_ci(hay, needle) <==> {
            ||| needle.len() == 0
            ||| hay matches Some(hay) && text::occurs(text::lower(hay), text::lower(needle))
        },
{
    let folded = text::lower(text::or_empty(hay));
    if needle.len() == 0 {
        assert(folded.subrange(0, 0) =~= text::lower(needle));
        assert(text::occurs_at(folded, text::lower(needle), 0));
    } else if hay is None && text::occurs(folded, text::lower(needle)) {
        let at = choose|at: int| text::occurs_at(folded, text::lower(needle), at);
        assert(text::lower(needle).len() <= folded.len());
    }
}

fn push_clause(clauses: &mut Vec<String>, prefix: &str, what: &Option<String>)
    ensures
        text::views(final(clauses)@) == text::views(old(clauses)@) + clause(
            prefix@,
            text::opt_view(*what),
        ),
{
    if let Some(what) = what {
        let mut words = prefix.to_owned();
        words.append(what.as_str());
        words.append("`");
        clauses.push(words);
    }
    assert(text::views(clauses@) =~= text::views(old(clauses)@) + clause(
        prefix@,
        text::opt_view(*what),
    ));
}

impl Query {
    /// A query without constraints: every widget matches.
    pub fn empty() -> (r: Query)
        ensures
            r@ == QueryV::nothing(),
            r.content_contains is None && r.role is None && r.label_contains is None
                && r.value_contains is None,
    {
        Query { content_contains: None, role: None, label_contains: None, value_contains: None }
    }

    /// True when no constraint is set (matches every widget).
    pub fn is_empty(&self) -> (r: bool)
        ensures
            r == (self@ == QueryV::nothing()),
            r <==> self.content_contains is None && self.role is None && self.label_contains is None
                && self.value_contains is None,
    {
        self.content_contains.is_none() && self.role.is_none() && self.label_contains.is_none()
            && self.value_contains.is_none()
    }

    /// Does `node` satisfy every set constraint? (Visibility is the caller's concern.)
    pub fn matches(&self, node: &Node) -> (r: bool)
        ensures
            r == self@.matched_by(node@),
            r <==> {
                &&& self.content_contains matches Some(needle) ==> {
                    ||| needle@.len() == 0
                    ||| node.label matches Some(label) && text::occurs(
                        text::lower(label@),
                        text::lower(needle@),
                    )
                    ||| node.value matches Some(value) && text::occurs(
                        text::lower(value@),
                        text::lower(needle@),
                    )
                }
                &&& self.role matches Some(role) ==> text::lower(role@) == text::lower(node.role@)
                &&& self.label_contains matches Some(needle) ==> {
                    ||| needle@.len() == 0
                    ||| node.label matches Some(label) && text::occurs(
                        text::lower(label@),
                        text::lower(needle@),
                    )
                }
                &&& self.value_contains matches Some(needle) ==> {
                    ||| needle@.len() == 0
                    ||| node.value matches Some(value) && text::occurs(
                        text::lower(value@),
                        text::lower(needle@),
                    )
                }
            },
    {
        proof {
            if self.content_contains is Some {
                lemma_absent_text_holds_nothing(node@.label, self.content_contains->0@);
                lemma_absent_text_holds_nothing(node@.value, self.content_contains->0@);
            }
            if self.label_contains is Some {
                lemma_absent_text_holds_nothing(node@.label, self.label_contains->0@);
            }
            if self.value_contains is Some {
                lemma_absent_text_holds_nothing(node@.value, self.value_contains->0@);
            }
        }
        if let Some(needle) = &self.content_contains {
            if !opt_contains_ci(&node.label, needle.as_str()) && !opt_contains_ci(
                &node.value,
                needle.as_str(),
            ) {
                return false;
            }
        }
        if let Some(role) = &self.role {
            if !text::same_text_ci(role.as_str(), node.role.as_str()) {
                return false;
            }
        }
        if let Some(needle) = &self.label_contains {
            if !opt_contains_ci(&node.label, needle.as_str()) {
                return false;
            }
        }
        if let Some(needle) = &self.value_contains {
            if !opt_contains_ci(&node.value, needle.as_str()) {
                return false;
            }
        }
        true
    }

    /// Human-readable description of the constraints, for "matched N nodes" / "no node" errors.
    pub fn describe(&self) -> (r: String)
        ensures
            r@ == self@.words(),
            self.content_contains is None && self.role is None && self.label_contains is None
                && self.value_contains is None ==> r@ == "the locator"@,
            !(self.content_contains is None && self.role is None && self.label_contains is None
                && self.value_contains is None) ==> r@ == text::joined(
                (match self.content_contains {
                    Some(needle) => seq!["label or value containing `"@ + needle@ + "`"@],
                    None => Seq::empty(),
                }) + (match self.role {
                    Some(role) => seq!["role `"@ + role@ + "`"@],
                    None => Seq::empty(),
                }) + (match self.label_contains {
                    Some(needle) => seq!["label containing `"@ + needle@ + "`"@],
                    None => Seq::empty(),
                }) + (match self.value_contains {
                    Some(needle) => seq!["value containing `"@ + needle@ + "`"@],
                    None => Seq::empty(),
                }),
                " and "@,
            ),
    {
        let mut clauses: Vec<String> = Vec::new();
        assert(text::views(clauses@) =~= Seq::empty());
        push_clause(&mut clauses, "label or value containing `", &self.content_contains);
        push_clause(&mut clauses, "role `", &self.role);
        push_clause(&mut clauses, "label containing `", &self.label_contains);
        push_clause(&mut clauses, "value containing `", &self.value_contains);
        assert(text::views(clauses@) =~= self@.clauses());
        assert(text::views(clauses@).len() == clauses.len());
        if clauses.is_empty() {
            "the locator".to_owned()
        } else {
            text::join(&clauses, " and ")
        }
    }
}

impl Default for Query {
    fn default() -> (r: Query)
        ensures
            r@ == QueryV::nothing(),
            r.content_contains is None && r.role is None && r.label_contains is None
                && r.value_contains is None,
    {
        Query::empty()
    }
}

/// A subtree to leave out of a query: whatever matches, plus everything below it.
///
/// Either a widget `id` or the same constraints a [`Query`] takes. An exclusion with neither
/// set matches nothing, rather than swallowing the whole tree.
#[derive(Debug, Clone)]
pub struct Exclusion {
    /// Id of the widget to leave out, from a previous query.
    pub id: Option<Id>,
    pub query: Query,
}

/// What an [`Exclusion`] holds.
pub struct ExclusionV {
    pub id: Option<Id>,
    pub query: QueryV,
}

impl View for Exclusion {
    type V = ExclusionV;

    open spec fn view(&self) -> ExclusionV {
        ExclusionV { id: self.id, query: self.query@ }
    }
}

impl ExclusionV {
    /// Does the node root a subtree the caller asked to leave out?
    pub open spec fn matched_by(self, n: NodeV) -> bool {
        ||| self.id == Some(n.id)
        ||| self.query != QueryV::nothing() && self.query.matched_by(n)
    }
}

impl Exclusion {
    /// Does `node` root a subtree the caller asked to leave out?
    pub fn matches(&self, node: &Node) -> (r: bool)
        ensures
            r == self@.matched_by(node@),
            self.id == Some(node.id) ==> r,
            self.id != Some(node.id) && self.query.content_contains is None && self.query.role is None
                && self.query.label_contains is None && self.query.value_contains is None ==> !r,
            self.id != Some(node.id) && !(self.query.content_contains is None && self.query.role is None
                && self.query.label_contains is None && self.query.value_contains is None) ==> r
                == self.query@.matched_by(node@),
    {
        if let Some(id) = self.id {
            if node.id == id {
                return true;
            }
        }
        !self.query.is_empty() && self.query.matches(node)
    }
}

impl Default for Exclusion {
    fn default() -> (r: Exclusion)
        ensures
            r@ == (ExclusionV { id: None, query: QueryV::nothing() }),
            r.id is None && r.query.content_contains is None && r.query.role is None
                && r.query.label_contains is None && r.query.value_contains is None,
    {
        Exclusion { id: None, query: Query::empty() }
    }
}

/// What subset of the tree a query walks, and how much of it comes back.
///
/// A default filter — no constraints, no `root`, no `exclude` — returns the whole visible app,
/// up to `limit`. Every field narrows the result further; they combine with logical AND.
#[derive(Debug, Clone)]
pub struct QueryFilter {
    /// Which widgets count as matches. An empty [`Query`] matches every widget, so the result
    /// is the app's whole hierarchy rather than a search hit.
    pub query: Query,
    /// Walk this widget's subtree instead of the whole app.
    pub root: Option<Id>,
    /// A subtree to leave out.
    pub exclude: Option<Exclusion>,
    /// Skip the widgets reported as hidden. On by default.
    pub visible_only: bool,
    /// Most widgets to return, counted over the whole forest and not per level.
    pub limit: usize,
}

/// What a [`QueryFilter`] holds.
pub struct FilterV {
    pub query: QueryV,
    pub root: Option<Id>,
    pub exclude: Option<ExclusionV>,
    pub visible_only: bool,
    pub limit: usize,
}

impl View for QueryFilter {
    type V = FilterV;

    open spec fn view(&self) -> FilterV {
        FilterV {
            query: self.query@,
            root: self.root,
            exclude: match self.exclude {
                Some(exclude) => Some(exclude@),
                None => None,
            },
            visible_only: self.visible_only,
            limit: self.limit,
        }
    }
}

impl FilterV {
    /// Does the node count as a match?
    pub open spec fn matched_by(self, n: NodeV) -> bool {
        !(self.visible_only && n.hidden) && self.query.matched_by(n)
    }

    /// Is the node left out, with everything below it?
    pub open spec fn excludes(self, n: NodeV) -> bool {
        self.exclude matches Some(exclude) && exclude.matched_by(n)
    }
}

pub fn default_true() -> (r: bool)
    ensures
        r,
{
    true
}

pub fn default_limit() -> (r: usize)
    ensures
        r == 200,
{
    200
}

impl Default for QueryFilter {
    fn default() -> (r: QueryFilter)
        ensures
            r@ == (FilterV {
                query: QueryV::nothing(),
                root: None,
                exclude: None,
                visible_only: true,
                limit: 200,
            }),
            r.root is None && r.exclude is None && r.visible_only && r.limit == 200,
            r.query.content_contains is None && r.query.role is None && r.query.label_contains is None
                && r.query.value_contains is None,
    {
        QueryFilter {
            query: Query::empty(),
            root: None,
            exclude: None,
            visible_only: default_true(),
            limit: default_limit(),
        }
    }
}

impl QueryFilter {
    /// Does `node` count as a match?
    pub fn matches(&self, node: &Node) -> (r: bool)
        ensures
            r == self@.matched_by(node@),
            self.visible_only && node.hidden ==> !r,
            !(self.visible_only && node.hidden) ==> r == self.query@.matched_by(node@),
    {
        if self.visible_only && node.hidden {
            return false;
        }
        self.query.matches(node)
    }

    /// Is `node` left out, with everything below it?
    pub fn leaves_out(&self, node: &Node) -> (r: bool)
        ensures
            r == self@.excludes(node@),
            self.exclude is None ==> !r,
            self.exclude matches Some(exclude) ==> r == exclude@.matched_by(node@),
    {
        match &self.exclude {
            Some(exclude) => exclude.matches(node),
            None => false,
        }
    }
}

/// A resolved lookup target: a specific node `id`, or a role/text match.
#[derive(Debug, Clone)]
pub enum Locator {
    Id { id: Id },
    Match { query: Query },
}

/// What a [`Locator`] holds.
pub enum LocatorV {
    Id { id: Id },
    Match { query: QueryV },
}

impl View for Locator {
    type V = LocatorV;

    open spec fn view(&self) -> LocatorV {
        match self {
            Locator::Id { id } => LocatorV::Id { id: *id },
            Locator::Match { query } => LocatorV::Match { query: query@ },
        }
    }
}

impl LocatorV {
    /// Is the node one that the locator means? Hidden nodes are found by their id alone.
    pub open spec fn hits(self, n: NodeV) -> bool {
        match self {
            LocatorV::Id { id } => n.id == id,
            LocatorV::Match { query } => !n.hidden && query.matched_by(n),
        }
    }

    /// The locator in words.
    pub open spec fn words(self) -> Seq<char> {
        match self {
            LocatorV::Id { id } => "id `"@ + id.spec_text() + "`"@,
            LocatorV::Match { query } => query.words(),
        }
    }
}

impl Locator {
    /// Build a locator from raw tool fields: an `id` wins, else the `query` constraints.
    /// Returns `None` when neither an `id` nor any `query` constraint is set.
    pub fn from_fields(id: Option<Id>, query: Query) -> (r: Option<Locator>)
        ensures
            match id {
                Some(id) => r == Some(Locator::Id { id }),
                None => r == if query@ == QueryV::nothing() {
                    None
                } else {
                    Some(Locator::Match { query })
                },
            },
            id is None ==> (r is None <==> query.content_contains is None && query.role is None
                && query.label_contains is None && query.value_contains is None),
    {
        if let Some(id) = id {
            return Some(Locator::Id { id });
        }
        if !query.is_empty() {
            return Some(Locator::Match { query });
        }
        None
    }

    /// Is `node` one that the locator means?
    pub fn hits(&self, node: &Node) -> (r: bool)
        ensures
            r == self@.hits(node@),
            self matches Locator::Id { id } ==> (r <==> node.id == *id),
            self matches Locator::Match { query } ==> (r <==> !node.hidden && query@.matched_by(
                node@,
            )),
    {
        match self {
            Locator::Id { id } => node.id == *id,
            Locator::Match { query } => !node.hidden && query.matches(node),
        }
    }

    /// The locator in words.
    pub fn describe(&self) -> (r: String)
        ensures
            r@ == self@.words(),
            self matches Locator::Id { id } ==> r@ == "id `"@ + text::numeral(id.0 as nat, 16)
                + "`"@,
            self matches Locator::Match { query } ==> r@ == query@.words(),
    {
        match self {
            Locator::Id { id } => {
                let mut words = "id `".to_owned();
                words.append(id.text().as_str());
                words.append("`");
                words
            },
            Locator::Match { query } => query.describe(),
        }
    }
}

}
