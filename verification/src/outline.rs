//! The accessibility nodes of one frame: their outline, and the details of one of them.
use vstd::prelude::*;
use vstd::string::*;

use crate::id::Id;
use crate::text;

verus! {

/// Whether a node that can be toggled is on.
#[derive(Debug, Clone, Copy, PartialEq, Eq, Structural)]
pub enum Toggled {
    Off,
    On,
    Mixed,
}

/// What a frame says about one node.
#[derive(Debug, Clone)]
pub struct NodeFacts {
    pub id: Id,
    /// The name of the role, as AccessKit spells it.
    pub role: String,
    /// The bounds as they are shown.
    pub bounds: Option<String>,
    pub label: Option<String>,
    pub value: Option<String>,
    pub description: Option<String>,
    pub placeholder: Option<String>,
    pub tooltip: Option<String>,
    pub class_name: Option<String>,
    pub author_id: Option<String>,
    pub keyboard_shortcut: Option<String>,
    pub disabled: bool,
    pub hidden: bool,
    pub read_only: bool,
    pub selected: Option<bool>,
    pub toggled: Option<Toggled>,
    pub children: Vec<Id>,
}

/// The nodes of a frame, with the root that the frame declares, if it does.
#[derive(Debug, Clone)]
pub struct NodeList {
    pub root: Option<Id>,
    pub nodes: Vec<NodeFacts>,
}

/// One line of a grid: what is shown, and its value.
#[derive(Debug, Clone)]
pub struct GridRow {
    pub name: String,
    pub value: String,
}

pub open spec fn rows_view(rows: Seq<GridRow>) -> Seq<(Seq<char>, Seq<char>)> {
    rows.map_values(|row: GridRow| (row.name@, row.value@))
}

/// A row that is there only if `value` is.
pub open spec fn row_if(name: Seq<char>, value: Option<Seq<char>>) -> Seq<(Seq<char>, Seq<char>)> {
    match value {
        Some(value) => seq![(name, value)],
        None => Seq::empty(),
    }
}

/// A text that says something.
pub open spec fn spoken(value: Option<Seq<char>>) -> Option<Seq<char>> {
    if value is Some && value->0.len() > 0 {
        value
    } else {
        None
    }
}

pub open spec fn flag(name: Seq<char>, on: bool) -> Seq<Seq<char>> {
    if on {
        seq![name]
    } else {
        Seq::empty()
    }
}

impl NodeFacts {
    /// The flags of the node that are worth a word, in order.
    pub open spec fn flags(self) -> Seq<Seq<char>> {
        flag("Disabled"@, self.disabled) + flag("Hidden"@, self.hidden) + flag(
            "Read-only"@,
            self.read_only,
        ) + flag("Selected"@, self.selected == Some(true)) + flag(
            "Unselected"@,
            self.selected == Some(false),
        )
    }

    pub open spec fn flag_words(self) -> Option<Seq<char>> {
        if self.flags().len() == 0 {
            None
        } else {
            Some(text::joined(self.flags(), ", "@))
        }
    }

    pub open spec fn toggled_word(self) -> Option<Seq<char>> {
        match self.toggled {
            None => None,
            Some(Toggled::Off) => Some("False"@),
            Some(Toggled::On) => Some("True"@),
            Some(Toggled::Mixed) => Some("Mixed"@),
        }
    }

    /// How many children the node has, if it has any.
    pub open spec fn child_count(self) -> Option<Seq<char>> {
        if self.children@.len() == 0 {
            None
        } else {
            Some(text::numeral(self.children@.len(), 10))
        }
    }

    /// The details of the node, row by row.
    pub open spec fn rows(self) -> Seq<(Seq<char>, Seq<char>)> {
        seq![("ID:"@, text::numeral(self.id.0 as nat, 10)), ("Role:"@, self.role@)] + row_if(
            "Bounds:"@,
            text::opt_view(self.bounds),
        ) + row_if("Label:"@, spoken(text::opt_view(self.label))) + row_if(
            "Value:"@,
            spoken(text::opt_view(self.value)),
        ) + row_if("Description:"@, spoken(text::opt_view(self.description))) + row_if(
            "Placeholder:"@,
            spoken(text::opt_view(self.placeholder)),
        ) + row_if("Tooltip:"@, spoken(text::opt_view(self.tooltip))) + row_if(
            "Class:"@,
            spoken(text::opt_view(self.class_name)),
        ) + row_if("Author ID:"@, spoken(text::opt_view(self.author_id))) + row_if(
            "Keyboard:"@,
            spoken(text::opt_view(self.keyboard_shortcut)),
        ) + row_if("Flags:"@, self.flag_words()) + row_if("Toggled:"@, self.toggled_word())
            + row_if("Children:"@, self.child_count())
    }

    /// What the outline says after the role: the label, or the value of a node without one.
    pub open spec fn said(self) -> Option<Seq<char>> {
        spoken(
            if self.label is Some {
                text::opt_view(self.label)
            } else {
                text::opt_view(self.value)
            },
        )
    }

    /// The line of the node in the outline.
    pub open spec fn line(self) -> Seq<char> {
        match self.said() {
            None => self.role@,
            Some(words) => self.role@ + "  "@ + quoted(words),
        }
    }
}

/// How `str` spells itself as a literal with its `Debug` form, quotes and escapes included.
pub uninterp spec fn quoted(s: Seq<char>) -> Seq<char>;

/// Formats the text with `str`'s `Debug` form, which depends on the text alone.
#[verifier::external_body]
fn quote(s: &str) -> (r: String)
    ensures
        r@ == quoted(s@),
{
    format!("{s:?}")
}

pub(crate) fn push_row(rows: &mut Vec<GridRow>, name: &str, value: Option<String>)
    ensures
        rows_view(final(rows)@) == rows_view(old(rows)@) + row_if(name@, text::opt_view(value)),
{
    if let Some(value) = value {
        rows.push(GridRow { name: name.to_owned(), value });
    }
    assert(rows_view(rows@) =~= rows_view(old(rows)@) + row_if(name@, text::opt_view(value)));
}

fn push_spoken(rows: &mut Vec<GridRow>, name: &str, value: &Option<String>)
    ensures
        rows_view(final(rows)@) == rows_view(old(rows)@) + row_if(
            name@,
            spoken(text::opt_view(*value)),
        ),
{
    if let Some(words) = value {
        if !words.as_str().is_empty() {
            push_row(rows, name, Some(words.clone()));
            return;
        }
    }
    assert(rows_view(rows@) =~= rows_view(old(rows)@) + row_if(name@, None));
}

fn push_flag(flags: &mut Vec<String>, name: &str, on: bool)
    ensures
        text::views(final(flags)@) == text::views(old(flags)@) + flag(name@, on),
{
    if on {
        flags.push(name.to_owned());
    }
    assert(text::views(flags@) =~= text::views(old(flags)@) + flag(name@, on));
}

/// The line of a node with the given role that says `said`, already quoted, or nothing.
pub fn caption(role: &str, said: Option<&str>) -> (r: String)
    ensures
        r@ == match said {
            None => role@,
            Some(words) => role@ + "  "@ + words@,
        },
{
    let mut line = role.to_owned();
    if let Some(words) = said {
        line.append("  ");
        line.append(words);
    }
    line
}

impl NodeFacts {
    fn flag_text(&self) -> (r: Option<String>)
        ensures
            text::opt_view(r) == self.flag_words(),
    {
        let mut flags: Vec<String> = Vec::new();
        assert(text::views(flags@) =~= Seq::<Seq<char>>::empty());
        push_flag(&mut flags, "Disabled", self.disabled);
        push_flag(&mut flags, "Hidden", self.hidden);
        push_flag(&mut flags, "Read-only", self.read_only);
        push_flag(&mut flags, "Selected", matches!(self.selected, Some(true)));
        push_flag(&mut flags, "Unselected", matches!(self.selected, Some(false)));
        assert(text::views(flags@) =~= self.flags());
        if flags.len() == 0 {
            None
        } else {
            Some(text::join(&flags, ", "))
        }
    }

    fn toggled_text(&self) -> (r: Option<String>)
        ensures
            text::opt_view(r) == self.toggled_word(),
    {
        match self.toggled {
            None => None,
            Some(Toggled::Off) => Some("False".to_owned()),
            Some(Toggled::On) => Some("True".to_owned()),
            Some(Toggled::Mixed) => Some("Mixed".to_owned()),
        }
    }

    fn child_count_text(&self) -> (r: Option<String>)
        ensures
            text::opt_view(r) == self.child_count(),
    {
        if self.children.len() == 0 {
            None
        } else {
            Some(text::numeral_text(self.children.len() as u128, 10))
        }
    }

    /// The details of the node, row by row.
    pub fn details(&self) -> (r: Vec<GridRow>)
        ensures
            rows_view(r@) == self.rows(),
    {
        let mut rows: Vec<GridRow> = Vec::new();
        push_row(&mut rows, "ID:", Some(text::numeral_text(self.id.0 as u128, 10)));
        push_row(&mut rows, "Role:", Some(self.role.clone()));
        assert(rows_view(rows@) =~= seq![
            ("ID:"@, text::numeral(self.id.0 as nat, 10)),
            ("Role:"@, self.role@),
        ]);
        push_row(
            &mut rows,
            "Bounds:",
            match &self.bounds {
                Some(bounds) => Some(bounds.clone()),
                None => None,
            },
        );
        push_spoken(&mut rows, "Label:", &self.label);
        push_spoken(&mut rows, "Value:", &self.value);
        push_spoken(&mut rows, "Description:", &self.description);
        push_spoken(&mut rows, "Placeholder:", &self.placeholder);
        push_spoken(&mut rows, "Tooltip:", &self.tooltip);
        push_spoken(&mut rows, "Class:", &self.class_name);
        push_spoken(&mut rows, "Author ID:", &self.author_id);
        push_spoken(&mut rows, "Keyboard:", &self.keyboard_shortcut);
        push_row(&mut rows, "Flags:", self.flag_text());
        push_row(&mut rows, "Toggled:", self.toggled_text());
        push_row(&mut rows, "Children:", self.child_count_text());
        rows
    }

    /// The line of the node in the outline.
    pub fn outline_line(&self) -> (r: String)
        ensures
            r@ == self.line(),
            self.label matches Some(label) ==> r@ == (if label@.len() > 0 {
                self.role@ + "  "@ + quoted(label@)
            } else {
                self.role@
            }),
            self.label is None ==> (self.value matches Some(value) ==> r@ == (if value@.len() > 0 {
                self.role@ + "  "@ + quoted(value@)
            } else {
                self.role@
            })),
            self.label is None && self.value is None ==> r@ == self.role@,
    {
        let said = match &self.label {
            Some(label) => Some(label),
            None => match &self.value {
                Some(value) => Some(value),
                None => None,
            },
        };
        match said {
            Some(words) if !words.as_str().is_empty() => {
                let shown = quote(words.as_str());
                caption(self.role.as_str(), Some(shown.as_str()))
            },
            _ => caption(self.role.as_str(), None),
        }
    }
}

/// The line of a node that is listed as a child but not there.
pub fn missing_line(id: Id) -> (r: String)
    ensures
        r@ == "(missing "@ + text::numeral(id.0 as nat, 10) + ")"@,
{
    let mut line = "(missing ".to_owned();
    line.append(text::numeral_text(id.0 as u128, 10).as_str());
    line.append(")");
    line
}

/// A node's line in the outline lights up if the node is selected or hovered.
pub fn is_highlighted(id: Id, selected: Option<Id>, hovered: Option<Id>) -> (r: bool)
    ensures
        r <==> selected == Some(id) || hovered == Some(id),
{
    same_node(selected, id) || same_node(hovered, id)
}

fn same_node(node: Option<Id>, id: Id) -> (r: bool)
    ensures
        r == (node == Some(id)),
{
    match node {
        Some(node) => node == id,
        None => false,
    }
}

/// The first of the nodes that has the id.
pub open spec fn first_with(nodes: Seq<NodeFacts>, id: Id) -> Option<NodeFacts>
    decreases nodes.len(),
{
    if nodes.len() == 0 {
        None
    } else if nodes[0].id == id {
        Some(nodes[0])
    } else {
        first_with(nodes.skip(1), id)
    }
}

/// The last of the nodes that has the id.
pub open spec fn last_with(nodes: Seq<NodeFacts>, id: Id) -> Option<NodeFacts>
    decreases nodes.len(),
{
    if nodes.len() == 0 {
        None
    } else if nodes.last().id == id {
        Some(nodes.last())
    } else {
        last_with(nodes.drop_last(), id)
    }
}

/// One of the nodes lists the id as a child.
pub open spec fn listed(nodes: Seq<NodeFacts>, id: Id) -> bool {
    exists|i: int| 0 <= i < nodes.len() && #[trigger] nodes[i].children@.contains(id)
}

/// The id of the first of the nodes that none of `all` lists as a child.
pub open spec fn first_unlisted(nodes: Seq<NodeFacts>, all: Seq<NodeFacts>) -> Option<Id>
    decreases nodes.len(),
{
    if nodes.len() == 0 {
        None
    } else if !listed(all, nodes[0].id) {
        Some(nodes[0].id)
    } else {
        first_unlisted(nodes.skip(1), all)
    }
}

pub open spec fn ids_of(nodes: Seq<NodeFacts>) -> Seq<Id> {
    nodes.map_values(|node: NodeFacts| node.id)
}

impl NodeList {
    /// Where the outline starts: at the declared root, else at the first node that no node
    /// lists as a child, else at every node.
    pub open spec fn roots_shown(self) -> Seq<Id> {
        match self.root {
            Some(root) => seq![root],
            None => match first_unlisted(self.nodes@, self.nodes@) {
                Some(id) => seq![id],
                None => ids_of(self.nodes@),
            },
        }
    }

    /// The first node with the id.
    pub fn find(&self, id: Id) -> (r: Option<&NodeFacts>)
        ensures
            r is Some <==> first_with(self.nodes@, id) is Some,
            r is Some ==> *r->0 == first_with(self.nodes@, id)->0,
            r is None <==> forall|k: int|
                0 <= k < self.nodes@.len() ==> (#[trigger] self.nodes@[k]).id != id,
            r is Some ==> exists|i: int|
                {
                    &&& 0 <= i < self.nodes@.len()
                    &&& #[trigger] self.nodes@[i] == *r->0
                    &&& self.nodes@[i].id == id
                    &&& forall|k: int| 0 <= k < i ==> (#[trigger] self.nodes@[k]).id != id
                },
    {
        let ghost all = self.nodes@;
        let mut i: usize = 0;
        assert(all.skip(0) =~= all);
        while i < self.nodes.len()
            invariant
                i <= self.nodes@.len(),
                all == self.nodes@,
                first_with(all, id) == first_with(all.skip(i as int), id),
                forall|k: int| 0 <= k < i ==> (#[trigger] self.nodes@[k]).id != id,
            decreases self.nodes.len() - i,
        {
            assert(all.skip(i as int).skip(1) =~= all.skip(i + 1));
            if self.nodes[i].id == id {
                return Some(&self.nodes[i]);
            }
            i += 1;
        }
        None
    }

    /// The node that the outline shows for the id: the last one with it.
    pub fn lookup(&self, id: Id) -> (r: Option<&NodeFacts>)
        ensures
            r is Some <==> last_with(self.nodes@, id) is Some,
            r is Some ==> *r->0 == last_with(self.nodes@, id)->0,
            r is None <==> forall|k: int|
                0 <= k < self.nodes@.len() ==> (#[trigger] self.nodes@[k]).id != id,
            r is Some ==> exists|i: int|
                {
                    &&& 0 <= i < self.nodes@.len()
                    &&& #[trigger] self.nodes@[i] == *r->0
                    &&& self.nodes@[i].id == id
                    &&& forall|k: int| i < k < self.nodes@.len() ==> (#[trigger] self.nodes@[k]).id != id
                },
    {
        let ghost all = self.nodes@;
        let mut i: usize = self.nodes.len();
        assert(all.take(i as int) =~= all);
        while i > 0
            invariant
                i <= self.nodes@.len(),
                all == self.nodes@,
                last_with(all, id) == last_with(all.take(i as int), id),
                forall|k: int| i <= k < self.nodes@.len() ==> (#[trigger] self.nodes@[k]).id != id,
            decreases i,
        {
            i -= 1;
            assert(all.take(i + 1).drop_last() =~= all.take(i as int));
            if self.nodes[i].id == id {
                return Some(&self.nodes[i]);
            }
        }
        None
    }

    /// Does one of the nodes list the id as a child?
    pub fn lists(&self, id: Id) -> (r: bool)
        ensures
            r == listed(self.nodes@, id),
            r <==> exists|i: int, j: int|
                0 <= i < self.nodes@.len() && 0 <= j < self.nodes@[i].children@.len()
                    && #[trigger] self.nodes@[i].children@[j] == id,
    {
        let mut i: usize = 0;
        while i < self.nodes.len()
            invariant
                i <= self.nodes@.len(),
                forall|k: int| 0 <= k < i ==> !(#[trigger] self.nodes@[k].children@.contains(id)),
                forall|k: int, j: int|
                    0 <= k < i && 0 <= j < self.nodes@[k].children@.len()
                        ==> #[trigger] self.nodes@[k].children@[j] != id,
            decreases self.nodes.len() - i,
        {
            let children = &self.nodes[i].children;
            let mut j: usize = 0;
            while j < children.len()
                invariant
                    i < self.nodes@.len(),
                    j <= children@.len(),
                    *children == self.nodes@[i as int].children,
                    forall|k: int| 0 <= k < j ==> children@[k] != id,
                decreases children.len() - j,
            {
                if children[j] == id {
                    assert(self.nodes@[i as int].children@.contains(id));
                    return true;
                }
                j += 1;
            }
            i += 1;
        }
        false
    }

    /// Where the outline starts: at the declared root, else at the first node that no node
    /// lists as a child, else at every node.
    pub fn roots(&self) -> (r: Vec<Id>)
        ensures
            r@ == self.roots_shown(),
    {
        let mut r: Vec<Id> = Vec::new();
        if let Some(root) = self.root {
            r.push(root);
            return r;
        }
        let ghost all = self.nodes@;
        let mut i: usize = 0;
        assert(all.skip(0) =~= all);
        while i < self.nodes.len()
            invariant
                i <= self.nodes@.len(),
                all == self.nodes@,
                self.root is None,
                r@ == ids_of(all.take(i as int)),
                first_unlisted(all, all) == first_unlisted(all.skip(i as int), all),
            decreases self.nodes.len() - i,
        {
            let id = self.nodes[i].id;
            assert(all.skip(i as int).skip(1) =~= all.skip(i + 1));
            if !self.lists(id) {
                let mut only: Vec<Id> = Vec::new();
                only.push(id);
                return only;
            }
            r.push(id);
            i += 1;
            assert(r@ =~= ids_of(all.take(i as int)));
        }
        assert(all.take(i as int) =~= all);
        r
    }
}

/// Where no two nodes share an id, the outline and the details show the same node for it.
pub proof fn law_distinct_ids_name_one_node(nodes: Seq<NodeFacts>, id: Id)
    requires
        forall|i: int, j: int|
            0 <= i < j < nodes.len() ==> (#[trigger] nodes[i]).id != (#[trigger] nodes[j]).id,
    ensures
        first_with(nodes, id) == last_with(nodes, id),
{
    lemma_first_with(nodes, id);
    lemma_last_with(nodes, id);
}

/// What is found for an id is one of the nodes, and has that id.
pub proof fn law_what_is_found_has_the_id(nodes: Seq<NodeFacts>, id: Id)
    ensures
        first_with(nodes, id) is Some <==> exists|i: int|
            0 <= i < nodes.len() && (#[trigger] nodes[i]).id == id,
        last_with(nodes, id) is Some <==> first_with(nodes, id) is Some,
        first_with(nodes, id) matches Some(node) ==> nodes.contains(node) && node.id == id,
        last_with(nodes, id) matches Some(node) ==> nodes.contains(node) && node.id == id,
{
    lemma_first_with(nodes, id);
    lemma_last_with(nodes, id);
}

/// A frame without a declared root has an outline as soon as it has a node, and an outline that
/// starts at one node starts at a node of the frame.
pub proof fn law_every_frame_with_nodes_has_an_outline(list: NodeList)
    requires
        list.root is None,
        list.nodes@.len() > 0,
    ensures
        list.roots_shown().len() > 0,
        forall|k: int|
            0 <= k < list.roots_shown().len() ==> ids_of(list.nodes@).contains(
                #[trigger] list.roots_shown()[k],
            ),
{
    lemma_first_unlisted(list.nodes@, list.nodes@);
}

proof fn lemma_first_with(nodes: Seq<NodeFacts>, id: Id)
    ensures
        match first_with(nodes, id) {
            Some(node) => exists|i: int|
                {
                    &&& 0 <= i < nodes.len()
                    &&& #[trigger] nodes[i] == node
                    &&& node.id == id
                },
            None => forall|i: int| 0 <= i < nodes.len() ==> (#[trigger] nodes[i]).id != id,
        },
    decreases nodes.len(),
{
    if nodes.len() > 0 && nodes[0].id != id {
        let rest = nodes.skip(1);
        lemma_first_with(rest, id);
        match first_with(rest, id) {
            Some(node) => {
                let i = choose|i: int| 0 <= i < rest.len() && #[trigger] rest[i] == node;
                assert(nodes[i + 1] == node);
            },
            None => {
                assert forall|i: int| 0 <= i < nodes.len() implies (#[trigger] nodes[i]).id
                    != id by {
                    if i > 0 {
                        assert(rest[i - 1] == nodes[i]);
                    }
                }
            },
        }
    }
}

proof fn lemma_last_with(nodes: Seq<NodeFacts>, id: Id)
    ensures
        match last_with(nodes, id) {
            Some(node) => exists|i: int|
                {
                    &&& 0 <= i < nodes.len()
                    &&& #[trigger] nodes[i] == node
                    &&& node.id == id
                },
            None => forall|i: int| 0 <= i < nodes.len() ==> (#[trigger] nodes[i]).id != id,
        },
    decreases nodes.len(),
{
    if nodes.len() > 0 && nodes.last().id != id {
        let rest = nodes.drop_last();
        lemma_last_with(rest, id);
        match last_with(rest, id) {
            Some(node) => {
                let i = choose|i: int| 0 <= i < rest.len() && #[trigger] rest[i] == node;
                assert(nodes[i] == node);
            },
            None => {
                assert forall|i: int| 0 <= i < nodes.len() implies (#[trigger] nodes[i]).id
                    != id by {
                    if i < rest.len() {
                        assert(rest[i] == nodes[i]);
                    }
                }
            },
        }
    }
}

proof fn lemma_first_unlisted(nodes: Seq<NodeFacts>, all: Seq<NodeFacts>)
    ensures
        first_unlisted(nodes, all) matches Some(id) ==> ids_of(nodes).contains(id) && !listed(
            all,
            id,
        ),
    decreases nodes.len(),
{
    if nodes.len() > 0 {
        assert(ids_of(nodes)[0] == nodes[0].id);
        if listed(all, nodes[0].id) {
            let rest = nodes.skip(1);
            lemma_first_unlisted(rest, all);
            if first_unlisted(rest, all) is Some {
                let id = first_unlisted(rest, all)->0;
                let i = choose|i: int| 0 <= i < ids_of(rest).len() && ids_of(rest)[i] == id;
                assert(ids_of(nodes)[i + 1] == id);
            }
        }
    }
}

/// The names of the rows, in the order in which they are shown.
pub open spec fn row_names() -> Seq<Seq<char>> {
    seq![
        "ID:"@,
        "Role:"@,
        "Bounds:"@,
        "Label:"@,
        "Value:"@,
        "Description:"@,
        "Placeholder:"@,
        "Tooltip:"@,
        "Class:"@,
        "Author ID:"@,
        "Keyboard:"@,
        "Flags:"@,
        "Toggled:"@,
        "Children:"@,
    ]
}

proof fn lemma_row_names_differ()
    ensures
        row_names().len() == 14,
        forall|i: int, j: int|
            0 <= i < 14 && 0 <= j < 14 && i != j ==> #[trigger] row_names()[i]
                != #[trigger] row_names()[j],
{
    reveal_strlit("ID:");
    reveal_strlit("Role:");
    reveal_strlit("Bounds:");
    reveal_strlit("Label:");
    reveal_strlit("Value:");
    reveal_strlit("Description:");
    reveal_strlit("Placeholder:");
    reveal_strlit("Tooltip:");
    reveal_strlit("Class:");
    reveal_strlit("Author ID:");
    reveal_strlit("Keyboard:");
    reveal_strlit("Flags:");
    reveal_strlit("Toggled:");
    reveal_strlit("Children:");
    let n = row_names();
    assert(n[0].len() == 3 && n[0][0] == 'I' && n[0][2] == ':');
    assert(n[1].len() == 5 && n[1][0] == 'R' && n[1][2] == 'l');
    assert(n[2].len() == 7 && n[2][0] == 'B' && n[2][2] == 'u');
    assert(n[3].len() == 6 && n[3][0] == 'L' && n[3][2] == 'b');
    assert(n[4].len() == 6 && n[4][0] == 'V' && n[4][2] == 'l');
    assert(n[5].len() == 12 && n[5][0] == 'D' && n[5][2] == 's');
    assert(n[6].len() == 12 && n[6][0] == 'P' && n[6][2] == 'a');
    assert(n[7].len() == 8 && n[7][0] == 'T' && n[7][2] == 'o');
    assert(n[8].len() == 6 && n[8][0] == 'C' && n[8][2] == 'a');
    assert(n[9].len() == 10 && n[9][0] == 'A' && n[9][2] == 't');
    assert(n[10].len() == 9 && n[10][0] == 'K' && n[10][2] == 'y');
    assert(n[11].len() == 6 && n[11][0] == 'F' && n[11][2] == 'a');
    assert(n[12].len() == 8 && n[12][0] == 'T' && n[12][2] == 'g');
    assert(n[13].len() == 9 && n[13][0] == 'C' && n[13][2] == 'i');
    assert forall|i: int, j: int| 0 <= i < 14 && 0 <= j < 14 && i != j implies #[trigger] n[i]
        != #[trigger] n[j] by {
        if i < j {
            lemma_two_names_differ(i, j);
        } else {
            lemma_two_names_differ(j, i);
        }
    }
}

/// No two names have the same length, first and third character.
proof fn lemma_two_names_differ(i: int, j: int)
    requires
        0 <= i < j < 14,
    ensures
        row_names()[i] != row_names()[j],
{
    reveal_strlit("ID:");
    reveal_strlit("Role:");
    reveal_strlit("Bounds:");
    reveal_strlit("Label:");
    reveal_strlit("Value:");
    reveal_strlit("Description:");
    reveal_strlit("Placeholder:");
    reveal_strlit("Tooltip:");
    reveal_strlit("Class:");
    reveal_strlit("Author ID:");
    reveal_strlit("Keyboard:");
    reveal_strlit("Flags:");
    reveal_strlit("Toggled:");
    reveal_strlit("Children:");
    let n = row_names();
    assert(n[0].len() == 3 && n[0][0] == 'I' && n[0][2] == ':');
    assert(n[1].len() == 5 && n[1][0] == 'R' && n[1][2] == 'l');
    assert(n[2].len() == 7 && n[2][0] == 'B' && n[2][2] == 'u');
    assert(n[3].len() == 6 && n[3][0] == 'L' && n[3][2] == 'b');
    assert(n[4].len() == 6 && n[4][0] == 'V' && n[4][2] == 'l');
    assert(n[5].len() == 12 && n[5][0] == 'D' && n[5][2] == 's');
    assert(n[6].len() == 12 && n[6][0] == 'P' && n[6][2] == 'a');
    assert(n[7].len() == 8 && n[7][0] == 'T' && n[7][2] == 'o');
    assert(n[8].len() == 6 && n[8][0] == 'C' && n[8][2] == 'a');
    assert(n[9].len() == 10 && n[9][0] == 'A' && n[9][2] == 't');
    assert(n[10].len() == 9 && n[10][0] == 'K' && n[10][2] == 'y');
    assert(n[11].len() == 6 && n[11][0] == 'F' && n[11][2] == 'a');
    assert(n[12].len() == 8 && n[12][0] == 'T' && n[12][2] == 'g');
    assert(n[13].len() == 9 && n[13][0] == 'C' && n[13][2] == 'i');
    assert(n[i].len() != n[j].len() || n[i][0] != n[j][0] || n[i][2] != n[j][2]);
}

/// The rows have names among the first `k`, each name once and in their order.
pub open spec fn rows_in_order(rows: Seq<(Seq<char>, Seq<char>)>, k: int) -> bool {
    &&& forall|i: int|
        0 <= i < rows.len() ==> exists|a: int| 0 <= a < k && (#[trigger] rows[i]).0 == #[trigger] row_names()[a]
    &&& forall|i: int, j: int, a: int, b: int|
        #![trigger rows[i], rows[j], row_names()[a], row_names()[b]]
        0 <= i < j < rows.len() && 0 <= a < k && 0 <= b < k && rows[i].0 == row_names()[a]
            && rows[j].0 == row_names()[b] ==> a < b
}

proof fn lemma_next_row(
    rows: Seq<(Seq<char>, Seq<char>)>,
    k: int,
    value: Option<Seq<char>>,
)
    requires
        0 <= k < 14,
        rows_in_order(rows, k),
    ensures
        rows_in_order(rows + row_if(row_names()[k], value), k + 1),
        forall|t: Seq<char>| #[trigger]
            (rows + row_if(row_names()[k], value)).contains((row_names()[k], t)) <==> value == Some(t),
        forall|a: int, t: Seq<char>|
            #![trigger (rows + row_if(row_names()[k], value)).contains((row_names()[a], t))]
            0 <= a < 14 && a != k ==> ((rows + row_if(row_names()[k], value)).contains(
                (row_names()[a], t),
            ) <==> rows.contains((row_names()[a], t))),
{
    lemma_row_names_differ();
    let n = row_names();
    let piece = row_if(n[k], value);
    let all = rows + piece;
    assert forall|i: int| 0 <= i < all.len() implies exists|a: int|
        0 <= a < k + 1 && (#[trigger] all[i]).0 == #[trigger] n[a] by {
        if i < rows.len() {
            assert(all[i] == rows[i]);
            let a = choose|a: int| 0 <= a < k && rows[i].0 == #[trigger] n[a];
            assert(all[i].0 == n[a]);
        } else {
            assert(all[i].0 == n[k]);
        }
    }
    assert forall|i: int, j: int, a: int, b: int|
        #![trigger all[i], all[j], n[a], n[b]]
        0 <= i < j < all.len() && 0 <= a < k + 1 && 0 <= b < k + 1 && all[i].0 == n[a] && all[j].0
            == n[b] implies a < b by {
        assert(all[i] == rows[i]);
        let c = choose|c: int| 0 <= c < k && rows[i].0 == #[trigger] n[c];
        assert(n[a] == n[c]);
        assert(a == c);
        if j < rows.len() {
            assert(all[j] == rows[j]);
            let d = choose|d: int| 0 <= d < k && rows[j].0 == #[trigger] n[d];
            assert(n[b] == n[d]);
            assert(b == d);
        } else {
            assert(all[j].0 == n[k]);
            assert(n[b] == n[k]);
            assert(b == k);
        }
    }
    assert forall|t: Seq<char>| #[trigger] all.contains((n[k], t)) <==> value == Some(t) by {
        if all.contains((n[k], t)) {
            let i = all.index_of((n[k], t));
            if i < rows.len() {
                assert(rows[i] == all[i]);
                let c = choose|c: int| 0 <= c < k && rows[i].0 == #[trigger] n[c];
                assert(n[c] == n[k]);
            }
        }
        if value == Some(t) {
            assert(all[rows.len() as int] == (n[k], t));
        }
    }
    assert forall|a: int, t: Seq<char>|
        #![trigger all.contains((n[a], t))]
        0 <= a < 14 && a != k implies (all.contains((n[a], t)) <==> rows.contains((n[a], t))) by {
        if all.contains((n[a], t)) {
            let i = all.index_of((n[a], t));
            if i >= rows.len() {
                assert(all[i].0 == n[k]);
            } else {
                assert(rows[i] == (n[a], t));
            }
        }
        if rows.contains((n[a], t)) {
            let i = rows.index_of((n[a], t));
            assert(all[i] == (n[a], t));
        }
    }
}

/// The values of a node's rows, by the places of their names; absent where there is no row.
spec fn values_of(node: NodeFacts) -> Seq<Option<Seq<char>>> {
    seq![
        Some(text::numeral(node.id.0 as nat, 10)),
        Some(node.role@),
        text::opt_view(node.bounds),
        spoken(text::opt_view(node.label)),
        spoken(text::opt_view(node.value)),
        spoken(text::opt_view(node.description)),
        spoken(text::opt_view(node.placeholder)),
        spoken(text::opt_view(node.tooltip)),
        spoken(text::opt_view(node.class_name)),
        spoken(text::opt_view(node.author_id)),
        spoken(text::opt_view(node.keyboard_shortcut)),
        node.flag_words(),
        node.toggled_word(),
        node.child_count(),
    ]
}

/// The rows of the first `k` values that are there.
spec fn rows_of(values: Seq<Option<Seq<char>>>, k: nat) -> Seq<(Seq<char>, Seq<char>)>
    decreases k,
{
    if k == 0 {
        Seq::empty()
    } else {
        rows_of(values, (k - 1) as nat) + row_if(row_names()[k - 1], values[k - 1])
    }
}

proof fn lemma_rows_of(values: Seq<Option<Seq<char>>>, k: nat)
    requires
        k <= 14,
    ensures
        rows_in_order(rows_of(values, k), k as int),
        forall|a: int, t: Seq<char>|
            #![trigger rows_of(values, k).contains((row_names()[a], t))]
            0 <= a < k ==> (rows_of(values, k).contains((row_names()[a], t)) <==> values[a] == Some(
                t,
            )),
    decreases k,
{
    if k > 0 {
        lemma_rows_of(values, (k - 1) as nat);
        let before = rows_of(values, (k - 1) as nat);
        lemma_next_row(before, k - 1, values[k - 1]);
        assert forall|a: int, t: Seq<char>|
            #![trigger rows_of(values, k).contains((row_names()[a], t))]
            0 <= a < k implies (rows_of(values, k).contains((row_names()[a], t)) <==> values[a]
            == Some(t)) by {
            if a < k - 1 {
                assert(before.contains((row_names()[a], t)) <==> values[a] == Some(t));
            }
        }
    }
}

#[verifier::rlimit(50)]
proof fn lemma_rows_are_the_rows_of_the_values(node: NodeFacts)
    ensures
        node.rows() == rows_of(values_of(node), 14),
{
    let n = row_names();
    let v = values_of(node);
    let none = rows_of(v, 0);
    assert(none =~= Seq::empty());
    let two = seq![("ID:"@, text::numeral(node.id.0 as nat, 10)), ("Role:"@, node.role@)];
    assert(rows_of(v, 1) == none + row_if(n[0], v[0]));
    assert(rows_of(v, 2) == rows_of(v, 1) + row_if(n[1], v[1]));
    assert(rows_of(v, 2) =~= two);
    assert(rows_of(v, 3) == rows_of(v, 2) + row_if("Bounds:"@, text::opt_view(node.bounds)));
    assert(rows_of(v, 4) == rows_of(v, 3) + row_if("Label:"@, spoken(text::opt_view(node.label))));
    assert(rows_of(v, 5) == rows_of(v, 4) + row_if("Value:"@, spoken(text::opt_view(node.value))));
    assert(rows_of(v, 6) == rows_of(v, 5) + row_if("Description:"@, spoken(text::opt_view(node.description))));
    assert(rows_of(v, 7) == rows_of(v, 6) + row_if("Placeholder:"@, spoken(text::opt_view(node.placeholder))));
    assert(rows_of(v, 8) == rows_of(v, 7) + row_if("Tooltip:"@, spoken(text::opt_view(node.tooltip))));
    assert(rows_of(v, 9) == rows_of(v, 8) + row_if("Class:"@, spoken(text::opt_view(node.class_name))));
    assert(rows_of(v, 10) == rows_of(v, 9) + row_if("Author ID:"@, spoken(text::opt_view(node.author_id))));
    assert(rows_of(v, 11) == rows_of(v, 10) + row_if("Keyboard:"@, spoken(text::opt_view(node.keyboard_shortcut))));
    assert(rows_of(v, 12) == rows_of(v, 11) + row_if("Flags:"@, node.flag_words()));
    assert(rows_of(v, 13) == rows_of(v, 12) + row_if("Toggled:"@, node.toggled_word()));
    assert(rows_of(v, 14) == rows_of(v, 13) + row_if("Children:"@, node.child_count()));
}

proof fn lemma_row(node: NodeFacts, k: int, t: Seq<char>)
    requires
        0 <= k < 14,
    ensures
        node.rows().contains((row_names()[k], t)) <==> values_of(node)[k] == Some(t),
{
    lemma_rows_are_the_rows_of_the_values(node);
    lemma_rows_of(values_of(node), 14);
    assert(rows_of(values_of(node), 14).contains((row_names()[k], t)) <==> values_of(node)[k]
        == Some(t));
}

/// The details of a node tell each of its texts, under its name, exactly if it is there and not
/// empty.
pub proof fn law_the_details_tell_every_text(node: NodeFacts, t: Seq<char>)
    ensures
        node.rows().contains(("Label:"@, t)) <==> (node.label matches Some(text) && text@ == t && t.len()
            > 0),
        node.rows().contains(("Value:"@, t)) <==> (node.value matches Some(text) && text@ == t && t.len()
            > 0),
        node.rows().contains(("Description:"@, t)) <==> (node.description matches Some(text) && text@ == t && t.len()
            > 0),
        node.rows().contains(("Placeholder:"@, t)) <==> (node.placeholder matches Some(text) && text@ == t && t.len()
            > 0),
        node.rows().contains(("Tooltip:"@, t)) <==> (node.tooltip matches Some(text) && text@ == t && t.len()
            > 0),
        node.rows().contains(("Class:"@, t)) <==> (node.class_name matches Some(text) && text@ == t && t.len()
            > 0),
        node.rows().contains(("Author ID:"@, t)) <==> (node.author_id matches Some(text) && text@ == t && t.len()
            > 0),
        node.rows().contains(("Keyboard:"@, t)) <==> (node.keyboard_shortcut matches Some(text) && text@ == t && t.len()
            > 0),
{
    assert(row_names()[3] == "Label:"@);
    lemma_row(node, 3, t);
    assert(row_names()[4] == "Value:"@);
    lemma_row(node, 4, t);
    assert(row_names()[5] == "Description:"@);
    lemma_row(node, 5, t);
    assert(row_names()[6] == "Placeholder:"@);
    lemma_row(node, 6, t);
    assert(row_names()[7] == "Tooltip:"@);
    lemma_row(node, 7, t);
    assert(row_names()[8] == "Class:"@);
    lemma_row(node, 8, t);
    assert(row_names()[9] == "Author ID:"@);
    lemma_row(node, 9, t);
    assert(row_names()[10] == "Keyboard:"@);
    lemma_row(node, 10, t);
}

/// The details of a node tell its id and its role, its bounds if it has some, whether it is
/// toggled if it can be, and the number of its children if it has some.
pub proof fn law_the_details_tell_what_a_node_is(node: NodeFacts, t: Seq<char>)
    ensures
        node.rows().contains(("ID:"@, t)) <==> t == text::numeral(node.id.0 as nat, 10),
        node.rows().contains(("Role:"@, t)) <==> t == node.role@,
        node.rows().contains(("Bounds:"@, t)) <==> (node.bounds matches Some(bounds) && bounds@ == t),
        node.rows().contains(("Toggled:"@, t)) <==> match node.toggled {
            None => false,
            Some(Toggled::Off) => t == "False"@,
            Some(Toggled::On) => t == "True"@,
            Some(Toggled::Mixed) => t == "Mixed"@,
        },
        node.rows().contains(("Children:"@, t)) <==> node.children@.len() > 0 && t == text::numeral(
            node.children@.len(),
            10,
        ),
{
    assert(row_names()[0] == "ID:"@);
    lemma_row(node, 0, t);
    assert(row_names()[1] == "Role:"@);
    lemma_row(node, 1, t);
    assert(row_names()[2] == "Bounds:"@);
    lemma_row(node, 2, t);
    assert(row_names()[12] == "Toggled:"@);
    lemma_row(node, 12, t);
    assert(row_names()[13] == "Children:"@);
    lemma_row(node, 13, t);
}

/// The details of a node tell the flags that are set, in one row, if any is.
pub proof fn law_the_details_tell_the_flags(node: NodeFacts, t: Seq<char>)
    ensures
        node.rows().contains(("Flags:"@, t)) <==> (node.disabled || node.hidden || node.read_only
            || node.selected is Some) && t == text::joined(
            (if node.disabled {
                seq!["Disabled"@]
            } else {
                Seq::empty()
            }) + (if node.hidden {
                seq!["Hidden"@]
            } else {
                Seq::empty()
            }) + (if node.read_only {
                seq!["Read-only"@]
            } else {
                Seq::empty()
            }) + (match node.selected {
                Some(true) => seq!["Selected"@],
                Some(false) => seq!["Unselected"@],
                None => Seq::empty(),
            }),
            ", "@,
        ),
{
    assert(row_names()[11] == "Flags:"@);
    lemma_row(node, 11, t);
    let flags = (if node.disabled {
        seq!["Disabled"@]
    } else {
        Seq::empty()
    }) + (if node.hidden {
        seq!["Hidden"@]
    } else {
        Seq::empty()
    }) + (if node.read_only {
        seq!["Read-only"@]
    } else {
        Seq::empty()
    }) + (match node.selected {
        Some(true) => seq!["Selected"@],
        Some(false) => seq!["Unselected"@],
        None => Seq::empty(),
    });
    assert(node.flags() =~= flags);
}

/// The details of a node come in one order, nothing twice, and the id and the role first.
pub proof fn law_the_details_come_in_order(node: NodeFacts)
    ensures
        rows_in_order(node.rows(), 14),
        node.rows().len() >= 2,
        node.rows()[0].0 == "ID:"@,
        node.rows()[1].0 == "Role:"@,
{
    lemma_rows_are_the_rows_of_the_values(node);
    lemma_rows_of(values_of(node), 14);
}

/// A node is a child wherever in the list the node stands that names it so, and wherever among
/// the children.
pub proof fn law_a_child_is_listed_wherever_it_stands(nodes: Seq<NodeFacts>, id: Id, i: int, k: int)
    ensures
        0 <= i < nodes.len() && 0 <= k < nodes[i].children@.len() && nodes[i].children@[k] == id
            ==> listed(nodes, id),
        (forall|a: int, b: int|
            0 <= a < nodes.len() && 0 <= b < nodes[a].children@.len()
                ==> #[trigger] nodes[a].children@[b] != id) ==> !listed(nodes, id),
{
    if 0 <= i < nodes.len() && 0 <= k < nodes[i].children@.len() && nodes[i].children@[k] == id {
        assert(nodes[i].children@.contains(id));
    }
}

/// An outline starts at the declared root alone, if there is one. Without one it starts at the
/// first node that no node lists as a child.
pub proof fn law_where_an_outline_starts(list: NodeList, i: int)
    ensures
        list.root matches Some(root) ==> list.roots_shown() == seq![root],
        list.root is None && 0 <= i < list.nodes@.len() && !listed(list.nodes@, list.nodes@[i].id)
            && (forall|k: int|
            0 <= k < i ==> listed(list.nodes@, (#[trigger] list.nodes@[k]).id)) ==> list.roots_shown()
            == seq![list.nodes@[i].id],
{
    if list.root is None && 0 <= i < list.nodes@.len() && !listed(list.nodes@, list.nodes@[i].id) && (
    forall|k: int| 0 <= k < i ==> listed(list.nodes@, (#[trigger] list.nodes@[k]).id)) {
        lemma_first_unlisted_at(list.nodes@, list.nodes@, i);
    }
}

/// An outline without a declared root, where every node is some node's child, starts at every
/// node, in order.
pub proof fn law_a_ring_is_outlined_flat(list: NodeList, i: int)
    requires
        list.root is None,
        forall|k: int|
            0 <= k < list.nodes@.len() ==> listed(list.nodes@, (#[trigger] list.nodes@[k]).id),
        0 <= i < list.nodes@.len(),
    ensures
        list.roots_shown().len() == list.nodes@.len(),
        list.roots_shown()[i] == list.nodes@[i].id,
{
    lemma_none_unlisted(list.nodes@, list.nodes@);
}

proof fn lemma_first_unlisted_at(nodes: Seq<NodeFacts>, all: Seq<NodeFacts>, i: int)
    requires
        0 <= i < nodes.len(),
        !listed(all, nodes[i].id),
        forall|k: int| 0 <= k < i ==> listed(all, (#[trigger] nodes[k]).id),
    ensures
        first_unlisted(nodes, all) == Some(nodes[i].id),
    decreases nodes.len(),
{
    if i > 0 {
        let rest = nodes.skip(1);
        assert(listed(all, nodes[0].id));
        assert forall|k: int| 0 <= k < i - 1 implies listed(all, (#[trigger] rest[k]).id) by {
            assert(rest[k] == nodes[k + 1]);
        }
        lemma_first_unlisted_at(rest, all, i - 1);
    }
}

proof fn lemma_none_unlisted(nodes: Seq<NodeFacts>, all: Seq<NodeFacts>)
    requires
        forall|k: int| 0 <= k < nodes.len() ==> listed(all, (#[trigger] nodes[k]).id),
    ensures
        first_unlisted(nodes, all) is None,
    decreases nodes.len(),
{
    if nodes.len() > 0 {
        let rest = nodes.skip(1);
        assert(listed(all, nodes[0].id));
        assert forall|k: int| 0 <= k < rest.len() implies listed(all, (#[trigger] rest[k]).id) by {
            assert(rest[k] == nodes[k + 1]);
        }
        lemma_none_unlisted(rest, all);
    }
}

}
