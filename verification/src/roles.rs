//! Role names: which there are, and which a tree holds.
use vstd::prelude::*;
use vstd::string::*;

use crate::node;
use crate::node::{Node, NodeV, Tree};
use crate::text;

verus! {

/// The name of the role with the given number: how `accesskit::Role` spells the variant that
/// `accesskit::Role::n` gives for it, if there is one.
pub uninterp spec fn role_named(number: u8) -> Option<Seq<char>>;

/// Calls `accesskit::Role::n`, and spells the role with its `Debug` form. Both depend on the
/// number alone.
#[verifier::external_body]
fn role_name(number: u8) -> (r: Option<String>)
    ensures
        text::opt_view(r) == role_named(number),
{
    accesskit::Role::n(number).map(|role| format!("{role:?}"))
}

/// The names of the roles from number `from` up to the first number without one.
pub open spec fn names_from(from: int) -> Seq<Seq<char>>
    decreases 256 - from,
{
    if 0 <= from <= 255 && role_named(from as u8) is Some {
        seq![role_named(from as u8)->0] + names_from(from + 1)
    } else {
        Seq::empty()
    }
}

/// All role names there are, in the order of their numbers.
pub fn known_roles() -> (r: Vec<String>)
    ensures
        text::views(r@) == names_from(0),
{
    let mut names: Vec<String> = Vec::new();
    let mut number: u16 = 0;
    assert(text::views(names@) =~= Seq::empty());
    assert(text::views(names@) + names_from(0) =~= names_from(0));
    while number <= 255
        invariant
            number <= 256,
            text::views(names@) + names_from(number as int) == names_from(0),
        decreases 256 - number,
    {
        let ghost before = text::views(names@);
        match role_name(number as u8) {
            None => {
                assert(text::views(names@) =~= names_from(0));
                return names;
            },
            Some(name) => {
                names.push(name);
                number += 1;
                proof {
                    assert(text::views(names@) =~= before.push(name@));
                    assert(text::views(names@) + names_from(number as int) =~= before + (seq![
                        name@,
                    ] + names_from(number as int)));
                }
            },
        }
    }
    assert(text::views(names@) =~= names_from(0));
    names
}

/// `a` stands before `b` in the order of texts.
pub open spec fn text_lt(a: Seq<char>, b: Seq<char>) -> bool {
    text::text_le(a, b) && a != b
}

/// How many texts at the front of the list stand before `t`.
pub open spec fn rank(list: Seq<Seq<char>>, t: Seq<char>) -> nat
    decreases list.len(),
{
    if list.len() > 0 && text_lt(list[0], t) {
        1 + rank(list.skip(1), t)
    } else {
        0
    }
}

/// The list with `t` in its place, unless it is there already.
pub open spec fn with_text(list: Seq<Seq<char>>, t: Seq<char>) -> Seq<Seq<char>> {
    let k = rank(list, t) as int;
    if k < list.len() && list[k] == t {
        list
    } else {
        list.take(k) + seq![t] + list.skip(k)
    }
}

/// The distinct roles of the nodes, sorted.
pub open spec fn roles_of(ns: Seq<NodeV>) -> Seq<Seq<char>>
    decreases ns.len(),
{
    if ns.len() == 0 {
        Seq::empty()
    } else {
        with_text(roles_of(ns.drop_last()), ns.last().role)
    }
}

/// The nodes' roles, put into a list of roles one after the other.
pub open spec fn roles_added(list: Seq<Seq<char>>, ns: Seq<NodeV>) -> Seq<Seq<char>>
    decreases ns.len(),
{
    if ns.len() == 0 {
        list
    } else {
        with_text(roles_added(list, ns.drop_last()), ns.last().role)
    }
}

fn add_role(list: &mut Vec<String>, role: &String)
    ensures
        text::views(final(list)@) == with_text(text::views(old(list)@), role@),
{
    let ghost all = text::views(list@);
    let mut k: usize = 0;
    assert(all.skip(0) =~= all);
    while k < list.len() && text::text_no_later(list[k].as_str(), role.as_str()) && !text::same_text(
        list[k].as_str(),
        role.as_str(),
    )
        invariant
            k <= list@.len(),
            all == text::views(list@),
            rank(all, role@) == k + rank(all.skip(k as int), role@),
        decreases list.len() - k,
    {
        assert(all.skip(k as int).skip(1) =~= all.skip(k + 1));
        k += 1;
    }
    assert(rank(all, role@) == k);
    if k < list.len() && text::same_text(list[k].as_str(), role.as_str()) {
        return;
    }
    list.insert(k, role.clone());
    assert(text::views(list@) =~= with_text(all, role@));
}

fn collect_roles(node: &Node, out: &mut Vec<String>)
    ensures
        text::views(final(out)@) == roles_added(text::views(old(out)@), node::preorder(node@)),
    decreases node,
{
    let ghost start = text::views(out@);
    let ghost kids = node@.children;
    add_role(out, &node.role);
    proof {
        lemma_roles_added_add(start, seq![node@], node::preorder_all(kids.take(0)));
        assert(seq![node@].drop_last() =~= Seq::empty());
        assert(roles_added(start, seq![node@].drop_last()) == start);
        assert(node::preorder_all(kids.take(0)) =~= Seq::empty());
    }
    let mut i: usize = 0;
    while i < node.children.len()
        invariant
            i <= node.children@.len(),
            kids == node@.children,
            text::views(out@) == roles_added(
                start,
                seq![node@] + node::preorder_all(kids.take(i as int)),
            ),
        decreases node.children.len() - i,
    {
        collect_roles(&node.children[i], out);
        i += 1;
        proof {
            let head = kids.take(i - 1);
            let last = kids[i - 1];
            assert(kids.take(i as int).drop_last() =~= head);
            lemma_roles_added_add(
                start,
                seq![node@] + node::preorder_all(head),
                node::preorder(last),
            );
            assert(seq![node@] + node::preorder_all(kids.take(i as int)) =~= seq![node@]
                + node::preorder_all(head) + node::preorder(last));
        }
    }
    assert(kids.take(i as int) =~= kids);
}

proof fn lemma_roles_added_add(list: Seq<Seq<char>>, a: Seq<NodeV>, b: Seq<NodeV>)
    ensures
        roles_added(list, a + b) == roles_added(roles_added(list, a), b),
    decreases b.len(),
{
    if b.len() == 0 {
        assert(a + b =~= a);
    } else {
        assert((a + b).drop_last() =~= a + b.drop_last());
        lemma_roles_added_add(list, a, b.drop_last());
    }
}

proof fn lemma_roles_added_to_none(ns: Seq<NodeV>)
    ensures
        roles_added(Seq::empty(), ns) == roles_of(ns),
    decreases ns.len(),
{
    if ns.len() > 0 {
        lemma_roles_added_to_none(ns.drop_last());
    }
}

/// The distinct roles present anywhere in `tree`, sorted.
pub fn roles_in_tree(tree: &Tree) -> (r: Vec<String>)
    ensures
        text::views(r@) == roles_of(node::preorder(tree@)),
{
    let mut roles: Vec<String> = Vec::new();
    assert(text::views(roles@) =~= Seq::empty());
    collect_roles(&tree.root, &mut roles);
    proof {
        lemma_roles_added_to_none(node::preorder(tree@));
    }
    roles
}

/// Is the role one of the known ones, whatever its case?
pub open spec fn is_known(role: Seq<char>, known: Seq<Seq<char>>) -> bool {
    exists|i: int|
        0 <= i < known.len() && text::lower(role) == text::lower(#[trigger] known[i])
}

/// What the caller of an unknown role is told.
pub open spec fn unknown_role(role: Seq<char>, present: Seq<Seq<char>>) -> Seq<char> {
    "unknown role `"@ + role + "` — roles present in the current tree: "@ + if present.len() == 0 {
        "(no nodes in the current tree)"@
    } else {
        text::joined(present, ", "@)
    }
}

pub open spec fn present_roles(tree: Option<&Tree>) -> Seq<Seq<char>> {
    match tree {
        Some(tree) => roles_of(node::preorder(tree@)),
        None => Seq::empty(),
    }
}

/// Holds `role` against a list of known roles. The error lists the roles present in `tree`.
///
/// # Errors
/// If `role` is none of the known ones.
pub fn check_role(role: &str, known: &Vec<String>, tree: Option<&Tree>) -> (r: Result<(), String>)
    ensures
        r is Ok <==> is_known(role@, text::views(known@)),
        r is Err ==> r->Err_0@ == unknown_role(role@, present_roles(tree)),
        r is Ok <==> exists|i: int|
            0 <= i < known@.len() && text::lower(role@) == text::lower(#[trigger] known@[i]@),
{
    let mut i: usize = 0;
    while i < known.len()
        invariant
            i <= known@.len(),
            forall|k: int|
                0 <= k < i ==> text::lower(role@) != text::lower(
                    #[trigger] text::views(known@)[k],
                ),
            forall|k: int|
                0 <= k < i ==> text::lower(role@) != text::lower(#[trigger] known@[k]@),
        decreases known.len() - i,
    {
        if text::same_text_ci(role, known[i].as_str()) {
            assert(text::views(known@)[i as int] == known@[i as int]@);
            return Ok(());
        }
        i += 1;
    }
    let present: Vec<String> = match tree {
        Some(tree) => roles_in_tree(tree),
        None => Vec::new(),
    };
    assert(text::views(present@) =~= present_roles(tree));
    assert(text::views(present@).len() == present@.len());
    let mut message = "unknown role `".to_owned();
    message.append(role);
    message.append("` — roles present in the current tree: ");
    if present.is_empty() {
        message.append("(no nodes in the current tree)");
    } else {
        message.append(text::join(&present, ", ").as_str());
    }
    Err(message)
}

/// Validate a role filter string against the full AccessKit role set.
///
/// Compared case-insensitively. On failure the error lists the distinct roles actually present
/// in `tree`, so the agent learns what it can filter by instead of getting a silent empty
/// result. Validity is checked against *all* roles, not just those present.
///
/// # Errors
/// If `role` is not a known AccessKit role name.
pub fn validate_role(role: &str, tree: Option<&Tree>) -> (r: Result<(), String>)
    ensures
        r is Ok <==> is_known(role@, names_from(0)),
        r is Err ==> r->Err_0@ == unknown_role(role@, present_roles(tree)),
        r is Err && tree is None ==> r->Err_0@ == "unknown role `"@ + role@
            + "` — roles present in the current tree: "@ + "(no nodes in the current tree)"@,
        r is Err ==> (tree matches Some(tree) ==> r->Err_0@ == "unknown role `"@ + role@
            + "` — roles present in the current tree: "@ + text::joined(
            roles_of(node::preorder(tree@)),
            ", "@,
        )),
{
    let known = known_roles();
    check_role(role, &known, tree)
}


/// Each text of the list stands before all that follow it.
pub open spec fn strictly_sorted(list: Seq<Seq<char>>) -> bool {
    forall|i: int, j: int|
        0 <= i < j < list.len() ==> text_lt(#[trigger] list[i], #[trigger] list[j])
}

proof fn lemma_order_total(a: Seq<char>, b: Seq<char>)
    ensures
        text::text_le(a, b) || text::text_le(b, a),
        text::text_le(a, b) && text::text_le(b, a) ==> a == b,
    decreases a.len(),
{
    if a.len() > 0 && b.len() > 0 {
        lemma_order_total(a.skip(1), b.skip(1));
        if a[0] == b[0] && a.skip(1) == b.skip(1) {
            assert(a =~= seq![a[0]] + a.skip(1));
            assert(b =~= seq![b[0]] + b.skip(1));
        }
    } else if a.len() == 0 && b.len() == 0 {
        assert(a =~= b);
    }
}

proof fn lemma_order_transitive(a: Seq<char>, b: Seq<char>, c: Seq<char>)
    requires
        text_lt(a, b),
        text_lt(b, c),
    ensures
        text_lt(a, c),
{
    lemma_le_transitive(a, b, c);
    lemma_order_total(a, b);
}

proof fn lemma_le_transitive(a: Seq<char>, b: Seq<char>, c: Seq<char>)
    requires
        text::text_le(a, b),
        text::text_le(b, c),
    ensures
        text::text_le(a, c),
    decreases a.len(),
{
    if a.len() > 0 && a[0] == b[0] && b[0] == c[0] {
        lemma_le_transitive(a.skip(1), b.skip(1), c.skip(1));
    }
}

/// What `rank` counts stands before `t`, and it stops at what does not.
proof fn lemma_rank(list: Seq<Seq<char>>, t: Seq<char>)
    ensures
        rank(list, t) <= list.len(),
        forall|i: int| 0 <= i < rank(list, t) ==> text_lt(#[trigger] list[i], t),
        rank(list, t) < list.len() ==> !text_lt(list[rank(list, t) as int], t),
    decreases list.len(),
{
    if list.len() > 0 && text_lt(list[0], t) {
        lemma_rank(list.skip(1), t);
        assert forall|i: int| 0 <= i < rank(list, t) implies text_lt(#[trigger] list[i], t) by {
            if i > 0 {
                assert(list.skip(1)[i - 1] == list[i]);
            }
        }
    }
}

proof fn lemma_with_text(list: Seq<Seq<char>>, t: Seq<char>)
    requires
        strictly_sorted(list),
    ensures
        strictly_sorted(with_text(list, t)),
        forall|x: Seq<char>| #[trigger]
            with_text(list, t).contains(x) <==> list.contains(x) || x == t,
{
    lemma_rank(list, t);
    let k = rank(list, t) as int;
    let new = with_text(list, t);
    if k < list.len() && list[k] == t {
        assert(list.contains(t));
    } else {
        assert forall|i: int, j: int| 0 <= i < j < new.len() implies text_lt(
            #[trigger] new[i],
            #[trigger] new[j],
        ) by {
            if k < list.len() {
                lemma_order_total(t, list[k]);
            }
            if j < k {
                assert(text_lt(list[i], list[j]));
            } else if j == k {
                assert(text_lt(list[i], t));
            } else {
                let later = list[j - 1];
                assert(new[j] == later);
                assert(text_lt(t, list[k]));
                if j - 1 > k {
                    assert(text_lt(list[k], list[j - 1]));
                    lemma_order_transitive(t, list[k], later);
                }
                if i < k {
                    assert(text_lt(list[i], t));
                    lemma_order_transitive(list[i], t, later);
                } else if i > k {
                    assert(text_lt(list[i - 1], list[j - 1]));
                }
            }
        }
        assert forall|x: Seq<char>| #[trigger] new.contains(x) <==> list.contains(x) || x == t by {
            if list.contains(x) {
                let i = choose|i: int| 0 <= i < list.len() && list[i] == x;
                if i < k {
                    assert(new[i] == x);
                } else {
                    assert(new[i + 1] == x);
                }
            }
            if new.contains(x) {
                let i = choose|i: int| 0 <= i < new.len() && new[i] == x;
                if i < k {
                    assert(list[i] == x);
                } else if i > k {
                    assert(list[i - 1] == x);
                }
            }
            assert(new[k] == t);
        }
    }
}

/// Some node of the list has the role.
pub open spec fn has_role(ns: Seq<NodeV>, role: Seq<char>) -> bool {
    exists|i: int| 0 <= i < ns.len() && (#[trigger] ns[i]).role == role
}

/// The roles of a tree are listed in order, each once, and they are the roles of its nodes.
pub proof fn law_roles_are_sorted_and_complete(ns: Seq<NodeV>)
    ensures
        strictly_sorted(roles_of(ns)),
        forall|role: Seq<char>| #[trigger] roles_of(ns).contains(role) <==> has_role(ns, role),
    decreases ns.len(),
{
    if ns.len() > 0 {
        let before = ns.drop_last();
        law_roles_are_sorted_and_complete(before);
        lemma_with_text(roles_of(before), ns.last().role);
        assert forall|role: Seq<char>| #[trigger]
            roles_of(ns).contains(role) <==> has_role(ns, role) by {
            if has_role(ns, role) {
                let i = choose|i: int| 0 <= i < ns.len() && (#[trigger] ns[i]).role == role;
                if i < before.len() {
                    assert(before[i].role == role);
                    assert(has_role(before, role));
                    assert(roles_of(before).contains(role));
                }
            }
            if roles_of(ns).contains(role) {
                if roles_of(before).contains(role) {
                    let i = choose|i: int|
                        0 <= i < before.len() && (#[trigger] before[i]).role == role;
                    assert(ns[i].role == role);
                } else {
                    assert(ns[ns.len() - 1].role == role);
                }
            }
        }
    }
}

/// The known roles are those with the numbers from zero up to the first that is unused.
pub proof fn law_known_roles_are_numbered_from_zero(i: int)
    ensures
        0 <= i < names_from(0).len() ==> i <= 255 && role_named(i as u8) == Some(names_from(0)[i]),
        names_from(0).len() <= 256,
        names_from(0).len() < 256 ==> role_named(names_from(0).len() as u8) is None,
{
    lemma_names_from(0, i);
}

proof fn lemma_names_from(from: int, i: int)
    requires
        0 <= from <= 256,
    ensures
        0 <= i < names_from(from).len() ==> from + i <= 255 && role_named((from + i) as u8) == Some(
            names_from(from)[i],
        ),
        from + names_from(from).len() <= 256,
        from + names_from(from).len() < 256 ==> role_named(
            (from + names_from(from).len()) as u8,
        ) is None,
    decreases 256 - from,
{
    if from <= 255 && role_named(from as u8) is Some {
        lemma_names_from(from + 1, i - 1);
        assert(names_from(from) =~= seq![role_named(from as u8)->0] + names_from(from + 1));
    }
}

}
