//! The page model: a tree of plain values standing for one parsed page,
//! together with the structural container queries that drive extraction.
//!
//! A query never looks at positions or at text: it finds elements by the
//! classes of their ancestors and by their own tag, in document order
//! (preorder), so extraction tolerates reordering of sibling sections but
//! not renaming of the container classes.

use vstd::prelude::*;

verus! {

/// One element of a parsed page: its tag name, its classes, the value of
/// its `src` attribute when it has one, its text content, and its child
/// elements in document order.
pub struct PageNode {
    pub tag: String,
    pub classes: Vec<String>,
    pub src: Option<String>,
    pub text: String,
    pub children: Vec<PageNode>,
}

/// A whole parsed page: the top-level elements in document order.
pub struct PageModel {
    pub nodes: Vec<PageNode>,
}

/// Whether a node carries the class `class`.
pub open spec fn node_has_class(n: PageNode, class: Seq<char>) -> bool {
    exists|i: int| 0 <= i < n.classes@.len() && n.classes@[i]@ == class
}

/// The text of the first node, in document order, that carries `class`:
/// the node itself if it matches, else the first hit in its subtrees.
pub open spec fn first_class_text_in_node(n: PageNode, class: Seq<char>) -> Option<Seq<char>>
    decreases n,
{
    if node_has_class(n, class) {
        Some(n.text@)
    } else {
        first_class_text_in_forest(n.children@, class)
    }
}

/// The text of the first node carrying `class` in a forest, in document order.
pub open spec fn first_class_text_in_forest(ns: Seq<PageNode>, class: Seq<char>) -> Option<
    Seq<char>,
>
    decreases ns,
{
    if ns.len() == 0 {
        None
    } else {
        match first_class_text_in_node(ns[0], class) {
            Some(t) => Some(t),
            None => first_class_text_in_forest(ns.drop_first(), class),
        }
    }
}

/// Whether `node` carries the class `class`.
pub fn has_class(node: &PageNode, class: &String) -> (r: bool)
    ensures
        r == node_has_class(*node, class@),
{
    let mut i: usize = 0;
    while i < node.classes.len()
        invariant
            i <= node.classes@.len(),
            forall|j: int| 0 <= j < i ==> node.classes@[j]@ != class@,
        decreases node.classes@.len() - i,
    {
        if node.classes[i] == *class {
            return true;
        }
        i = i + 1;
    }
    false
}

/// The text of the first element carrying `class` anywhere in the page,
/// in document order; `None` when no element carries it.
pub fn find_first_class_text(page: &PageModel, class: &String) -> (r: Option<String>)
    ensures
        r.deep_view() == first_class_text_in_forest(page.nodes@, class@),
{
    first_class_text_in_vec(&page.nodes, class)
}

fn first_class_text_in_vec(nodes: &Vec<PageNode>, class: &String) -> (r: Option<String>)
    ensures
        r.deep_view() == first_class_text_in_forest(nodes@, class@),
    decreases nodes@,
{
    let end = nodes.len();
    let mut i: usize = 0;
    proof {
        assert(nodes@.skip(0) =~= nodes@);
    }
    while i < end
        invariant
            i <= end,
            end == nodes@.len(),
            first_class_text_in_forest(nodes@, class@) == first_class_text_in_forest(
                nodes@.skip(i as int),
                class@,
            ),
        decreases end - i,
    {
        let hit = first_class_text_node(&nodes[i], class);
        proof {
            assert(nodes@.skip(i as int)[0] == nodes@[i as int]);
            assert(nodes@.skip(i as int).drop_first() =~= nodes@.skip(i + 1));
        }
        if hit.is_some() {
            return hit;
        }
        i = i + 1;
    }
    proof {
        assert(nodes@.skip(end as int) =~= Seq::<PageNode>::empty());
    }
    None
}

fn first_class_text_node(node: &PageNode, class: &String) -> (r: Option<String>)
    ensures
        r.deep_view() == first_class_text_in_node(*node, class@),
    decreases *node,
{
    if has_class(node, class) {
        Some(node.text.clone())
    } else {
        first_class_text_in_vec(&node.children, class)
    }
}

/// The first node, in document order, whose tag is `tag` and that has a
/// strict ancestor carrying the class `container`. `active` records whether
/// such an ancestor has already been passed on the way down.
pub open spec fn first_tagged_under_node(
    n: PageNode,
    container: Seq<char>,
    tag: Seq<char>,
    active: bool,
) -> Option<PageNode>
    decreases n,
{
    if active && n.tag@ == tag {
        Some(n)
    } else {
        first_tagged_under_forest(n.children@, container, tag, active || node_has_class(n, container))
    }
}

pub open spec fn first_tagged_under_forest(
    ns: Seq<PageNode>,
    container: Seq<char>,
    tag: Seq<char>,
    active: bool,
) -> Option<PageNode>
    decreases ns,
{
    if ns.len() == 0 {
        None
    } else {
        match first_tagged_under_node(ns[0], container, tag, active) {
            Some(n) => Some(n),
            None => first_tagged_under_forest(ns.drop_first(), container, tag, active),
        }
    }
}

/// The `src` attribute of the first element with tag `tag` below an element
/// carrying `container`: `None` both when no such element exists and when
/// the first one carries no `src` attribute.
pub open spec fn src_of_first_tagged_under(
    ns: Seq<PageNode>,
    container: Seq<char>,
    tag: Seq<char>,
) -> Option<Seq<char>> {
    match first_tagged_under_forest(ns, container, tag, false) {
        Some(n) => n.src.deep_view(),
        None => None,
    }
}

/// The `src` attribute of the first element of tag `tag` that sits below an
/// element carrying the class `container`, anywhere in the page.
pub fn find_first_src_under(page: &PageModel, container: &String, tag: &String) -> (r: Option<
    String,
>)
    ensures
        r.deep_view() == src_of_first_tagged_under(page.nodes@, container@, tag@),
{
    match first_src_in_vec(&page.nodes, container, tag, false) {
        Some(inner) => inner,
        None => None,
    }
}

/// Returns `None` when no matching element exists; `Some(src)` with the
/// found element's `src` attribute otherwise.
fn first_src_in_vec(nodes: &Vec<PageNode>, container: &String, tag: &String, active: bool) -> (r:
    Option<Option<String>>)
    ensures
        r.deep_view() == match first_tagged_under_forest(nodes@, container@, tag@, active) {
            Some(n) => Some(n.src.deep_view()),
            None => None,
        },
    decreases nodes@,
{
    let end = nodes.len();
    let mut i: usize = 0;
    proof {
        assert(nodes@.skip(0) =~= nodes@);
    }
    while i < end
        invariant
            i <= end,
            end == nodes@.len(),
            first_tagged_under_forest(nodes@, container@, tag@, active)
                == first_tagged_under_forest(nodes@.skip(i as int), container@, tag@, active),
        decreases end - i,
    {
        let hit = first_src_node(&nodes[i], container, tag, active);
        proof {
            assert(nodes@.skip(i as int)[0] == nodes@[i as int]);
            assert(nodes@.skip(i as int).drop_first() =~= nodes@.skip(i + 1));
        }
        if hit.is_some() {
            return hit;
        }
        i = i + 1;
    }
    proof {
        assert(nodes@.skip(end as int) =~= Seq::<PageNode>::empty());
    }
    None
}

fn first_src_node(node: &PageNode, container: &String, tag: &String, active: bool) -> (r: Option<
    Option<String>,
>)
    ensures
        r.deep_view() == match first_tagged_under_node(*node, container@, tag@, active) {
            Some(n) => Some(n.src.deep_view()),
            None => None,
        },
    decreases *node,
{
    if active && node.tag == *tag {
        match &node.src {
            Some(s) => Some(Some(s.clone())),
            None => Some(None),
        }
    } else {
        let child_active = active || has_class(node, container);
        first_src_in_vec(&node.children, container, tag, child_active)
    }
}

/// The texts, in document order, of every node with tag `tag` that has a
/// strict ancestor carrying the class `container`.
pub open spec fn texts_under_node(
    n: PageNode,
    container: Seq<char>,
    tag: Seq<char>,
    active: bool,
) -> Seq<Seq<char>>
    decreases n,
{
    (if active && n.tag@ == tag {
        seq![n.text@]
    } else {
        Seq::<Seq<char>>::empty()
    }) + texts_under_forest(n.children@, container, tag, active || node_has_class(n, container))
}

pub open spec fn texts_under_forest(
    ns: Seq<PageNode>,
    container: Seq<char>,
    tag: Seq<char>,
    active: bool,
) -> Seq<Seq<char>>
    decreases ns,
{
    if ns.len() == 0 {
        Seq::empty()
    } else {
        texts_under_forest(ns.drop_last(), container, tag, active) + texts_under_node(
            ns.last(),
            container,
            tag,
            active,
        )
    }
}

/// The texts, in document order, of every element with tag `tag` below an
/// element carrying the class `container`, anywhere in the page.
pub fn collect_texts_under(page: &PageModel, container: &String, tag: &String) -> (r: Vec<String>)
    ensures
        r.deep_view() == texts_under_forest(page.nodes@, container@, tag@, false),
{
    let mut out: Vec<String> = Vec::new();
    collect_texts_in_vec(&page.nodes, container, tag, false, &mut out);
    out
}

fn collect_texts_in_vec(
    nodes: &Vec<PageNode>,
    container: &String,
    tag: &String,
    active: bool,
    out: &mut Vec<String>,
)
    ensures
        final(out).deep_view() == old(out).deep_view() + texts_under_forest(
            nodes@,
            container@,
            tag@,
            active,
        ),
    decreases nodes@,
{
    let end = nodes.len();
    let mut i: usize = 0;
    proof {
        assert(nodes@.take(0) =~= Seq::<PageNode>::empty());
        assert(out.deep_view() + Seq::<Seq<char>>::empty() =~= out.deep_view());
    }
    while i < end
        invariant
            i <= end,
            end == nodes@.len(),
            out.deep_view() == old(out).deep_view() + texts_under_forest(
                nodes@.take(i as int),
                container@,
                tag@,
                active,
            ),
        decreases end - i,
    {
        collect_texts_node(&nodes[i], container, tag, active, out);
        proof {
            assert(nodes@.take(i + 1).drop_last() =~= nodes@.take(i as int));
            assert(nodes@.take(i + 1).last() == nodes@[i as int]);
        }
        i = i + 1;
    }
    proof {
        assert(nodes@.take(end as int) =~= nodes@);
    }
}

fn collect_texts_node(
    node: &PageNode,
    container: &String,
    tag: &String,
    active: bool,
    out: &mut Vec<String>,
)
    ensures
        final(out).deep_view() == old(out).deep_view() + texts_under_node(
            *node,
            container@,
            tag@,
            active,
        ),
    decreases *node,
{
    if active && node.tag == *tag {
        out.push(node.text.clone());
        proof {
            assert(out.deep_view() =~= old(out).deep_view() + seq![node.text@]);
        }
    } else {
        proof {
            assert(out.deep_view() + Seq::<Seq<char>>::empty() =~= out.deep_view());
        }
    }
    let child_active = active || has_class(node, container);
    let ghost mid = out.deep_view();
    collect_texts_in_vec(&node.children, container, tag, child_active, out);
    proof {
        assert(out.deep_view() =~= old(out).deep_view() + texts_under_node(
            *node,
            container@,
            tag@,
            active,
        ));
    }
}


/// The texts, in document order, of every node with tag `tag` that has a
/// strict ancestor carrying `inner`, where that ancestor itself has a
/// strict ancestor carrying `outer`. `outer_active` records whether an
/// `outer` ancestor has been passed; `inner_active` whether an `inner`
/// ancestor below an `outer` one has been passed.
pub open spec fn texts_under2_node(
    n: PageNode,
    outer: Seq<char>,
    inner: Seq<char>,
    tag: Seq<char>,
    outer_active: bool,
    inner_active: bool,
) -> Seq<Seq<char>>
    decreases n,
{
    (if inner_active && n.tag@ == tag {
        seq![n.text@]
    } else {
        Seq::<Seq<char>>::empty()
    }) + texts_under2_forest(
        n.children@,
        outer,
        inner,
        tag,
        outer_active || node_has_class(n, outer),
        inner_active || (outer_active && node_has_class(n, inner)),
    )
}

pub open spec fn texts_under2_forest(
    ns: Seq<PageNode>,
    outer: Seq<char>,
    inner: Seq<char>,
    tag: Seq<char>,
    outer_active: bool,
    inner_active: bool,
) -> Seq<Seq<char>>
    decreases ns,
{
    if ns.len() == 0 {
        Seq::empty()
    } else {
        texts_under2_forest(ns.drop_last(), outer, inner, tag, outer_active, inner_active)
            + texts_under2_node(ns.last(), outer, inner, tag, outer_active, inner_active)
    }
}

/// The texts, in document order, of every element with tag `tag` below an
/// element carrying `inner` that itself sits below an element carrying
/// `outer`, anywhere in the page.
pub fn collect_texts_under2(
    page: &PageModel,
    outer: &String,
    inner: &String,
    tag: &String,
) -> (r: Vec<String>)
    ensures
        r.deep_view() == texts_under2_forest(page.nodes@, outer@, inner@, tag@, false, false),
{
    let mut out: Vec<String> = Vec::new();
    collect_texts2_in_vec(&page.nodes, outer, inner, tag, false, false, &mut out);
    out
}

fn collect_texts2_in_vec(
    nodes: &Vec<PageNode>,
    outer: &String,
    inner: &String,
    tag: &String,
    outer_active: bool,
    inner_active: bool,
    out: &mut Vec<String>,
)
    ensures
        final(out).deep_view() == old(out).deep_view() + texts_under2_forest(
            nodes@,
            outer@,
            inner@,
            tag@,
            outer_active,
            inner_active,
        ),
    decreases nodes@,
{
    let end = nodes.len();
    let mut i: usize = 0;
    proof {
        assert(nodes@.take(0) =~= Seq::<PageNode>::empty());
        assert(out.deep_view() + Seq::<Seq<char>>::empty() =~= out.deep_view());
    }
    while i < end
        invariant
            i <= end,
            end == nodes@.len(),
            out.deep_view() == old(out).deep_view() + texts_under2_forest(
                nodes@.take(i as int),
                outer@,
                inner@,
                tag@,
                outer_active,
                inner_active,
            ),
        decreases end - i,
    {
        collect_texts2_node(&nodes[i], outer, inner, tag, outer_active, inner_active, out);
        proof {
            assert(nodes@.take(i + 1).drop_last() =~= nodes@.take(i as int));
            assert(nodes@.take(i + 1).last() == nodes@[i as int]);
        }
        i = i + 1;
    }
    proof {
        assert(nodes@.take(end as int) =~= nodes@);
    }
}

fn collect_texts2_node(
    node: &PageNode,
    outer: &String,
    inner: &String,
    tag: &String,
    outer_active: bool,
    inner_active: bool,
    out: &mut Vec<String>,
)
    ensures
        final(out).deep_view() == old(out).deep_view() + texts_under2_node(
            *node,
            outer@,
            inner@,
            tag@,
            outer_active,
            inner_active,
        ),
    decreases *node,
{
    if inner_active && node.tag == *tag {
        out.push(node.text.clone());
        proof {
            assert(out.deep_view() =~= old(out).deep_view() + seq![node.text@]);
        }
    } else {
        proof {
            assert(out.deep_view() + Seq::<Seq<char>>::empty() =~= out.deep_view());
        }
    }
    let child_outer = outer_active || has_class(node, outer);
    let child_inner = inner_active || (outer_active && has_class(node, inner));
    collect_texts2_in_vec(&node.children, outer, inner, tag, child_outer, child_inner, out);
    proof {
        assert(out.deep_view() =~= old(out).deep_view() + texts_under2_node(
            *node,
            outer@,
            inner@,
            tag@,
            outer_active,
            inner_active,
        ));
    }
}

} // verus!
