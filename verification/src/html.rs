//! Markup read into a document tree. The parser lists the nodes of the tree in
//! order: each node, then the subtrees of its children from the last child to
//! the first; each item holds the node's element name, attributes and text,
//! and its number of children. The tree is rebuilt from that list.

use vstd::prelude::*;
use html5ever::parse_document;
use html5ever::tendril::TendrilSink;
use markup5ever_rcdom::NodeData::{Element, Text};
use markup5ever_rcdom::RcDom;
use crate::dom::DomNode;

verus! {

/// One node as the parser lists it: element name, attributes (local name and
/// value) and text, then its number of children.
pub type HtmlItem = ((Option<String>, Vec<(String, String)>, Option<String>), usize);

/// The contents of an `HtmlItem`.
pub type HtmlItemView = ((Option<Seq<char>>, Seq<(Seq<char>, Seq<char>)>, Option<Seq<char>>), usize);

/// The text of an optional string.
pub open spec fn opt_view(o: Option<String>) -> Option<Seq<char>> {
    match o {
        Some(s) => Some(s@),
        None => None,
    }
}

/// The texts of a list of attributes.
pub open spec fn attr_views(a: Seq<(String, String)>) -> Seq<(Seq<char>, Seq<char>)> {
    a.map_values(|p: (String, String)| (p.0@, p.1@))
}

/// The contents of an item.
pub open spec fn item_view(it: HtmlItem) -> HtmlItemView {
    ((opt_view(it.0.0), attr_views(it.0.1@), opt_view(it.0.2)), it.1)
}

/// The contents of a list of items.
pub open spec fn items_view(v: Seq<HtmlItem>) -> Seq<HtmlItemView> {
    v.map_values(|it: HtmlItem| item_view(it))
}

/// The items that `html5ever` lists for the markup `html`.
pub uninterp spec fn html_items(html: Seq<char>) -> Seq<HtmlItemView>;

/// `html5ever::parse_document` into an `RcDom`, its nodes listed in order
/// (each node, then its children's subtrees from the last child to the first),
/// each as its element's local name and attributes, or its text, and its
/// number of children. The list is named `html_items`; what the parser builds
/// from a given text is left unsaid.
#[verifier::external_body]
fn parse_html(html: &str) -> (items: Vec<HtmlItem>)
    ensures
        items_view(items@) == html_items(html@),
{
    let mut st = vec![parse_document(RcDom::default(), Default::default()).one(html).document];
    let mut out = vec![];
    while let Some(h) = st.pop() {
        out.push((match &h.data {
            Element { name, attrs, .. } => (Some(name.local.to_string()), attrs.take().iter().map(|a| (a.name.local.to_string(), a.value.to_string())).collect(), None),
            Text { contents } => (None, vec![], Some(contents.take().to_string())),
            _ => (None, vec![], None),
        }, h.children.borrow().len()));
        st.extend(h.children.take());
    }
    out
}

/// Where the subtree listed from item `i` ends, by the children counts alone;
/// `None` where the list ends too early.
pub open spec fn subtree_end(v: Seq<HtmlItemView>, i: int) -> Option<int>
    decreases v.len() - i, 0nat,
{
    if 0 <= i < v.len() {
        kids_end(v, i + 1, v[i].1 as nat)
    } else {
        None
    }
}

/// Where `k` subtrees listed one after the other from item `j` end.
pub open spec fn kids_end(v: Seq<HtmlItemView>, j: int, k: nat) -> Option<int>
    decreases v.len() - j, k + 1,
{
    if k == 0 {
        Some(j)
    } else {
        match subtree_end(v, j) {
            Some(m) => if j < m <= v.len() {
                kids_end(v, m, (k - 1) as nat)
            } else {
                None
            },
            None => None,
        }
    }
}

/// The contents of the item that lists node `n`.
pub open spec fn node_item(n: DomNode) -> HtmlItemView {
    ((opt_view(n.tag), attr_views(n.attrs@), opt_view(n.text)), n.children@.len() as usize)
}

/// Where the listing of the tree `n` from item `i` ends; `None` where the
/// items from `i` do not list `n`.
pub open spec fn node_end(v: Seq<HtmlItemView>, i: int, n: DomNode) -> Option<int>
    decreases n, n.children@.len() + 1,
{
    if 0 <= i < v.len() && v[i] == node_item(n) {
        children_end(v, i + 1, n, 0)
    } else {
        None
    }
}

/// Where the listing of the children of `n`, from the `k`th from the last down
/// to the first, ends when it starts at item `j`.
pub open spec fn children_end(v: Seq<HtmlItemView>, j: int, n: DomNode, k: nat) -> Option<int>
    decreases n, n.children@.len() - k,
{
    if k >= n.children@.len() {
        Some(j)
    } else {
        proof {
            assert(decreases_to!(n => n.children));
            assert(decreases_to!(n.children => n.children@));
            assert(decreases_to!(n.children@ => n.children@[n.children@.len() - 1 - k]));
        }
        match node_end(v, j, n.children@[n.children@.len() - 1 - k]) {
            Some(m) => children_end(v, m, n, k + 1),
            None => None,
        }
    }
}

/// Where the listing of the trees `cs`, one after the other, ends when it
/// starts at item `j`.
pub open spec fn seq_end(v: Seq<HtmlItemView>, j: int, cs: Seq<DomNode>) -> Option<int>
    decreases cs.len(),
{
    if cs.len() == 0 {
        Some(j)
    } else {
        match node_end(v, j, cs[0]) {
            Some(m) => seq_end(v, m, cs.drop_first()),
            None => None,
        }
    }
}

proof fn lemma_children_seq(v: Seq<HtmlItemView>, j: int, n: DomNode, k: nat)
    requires
        k <= n.children@.len(),
    ensures
        children_end(v, j, n, k) == seq_end(v, j, n.children@.reverse().skip(k as int)),
    decreases n.children@.len() - k,
{
    let rs = n.children@.reverse().skip(k as int);
    if k >= n.children@.len() {
        assert(rs.len() == 0);
    } else {
        assert(rs[0] == n.children@[n.children@.len() - 1 - k]);
        assert(rs.drop_first() =~= n.children@.reverse().skip((k + 1) as int));
        match node_end(v, j, n.children@[n.children@.len() - 1 - k]) {
            Some(m) => lemma_children_seq(v, m, n, k + 1),
            None => {},
        }
    }
}

proof fn lemma_seq_push(v: Seq<HtmlItemView>, j: int, cs: Seq<DomNode>, d: DomNode, m: int)
    requires
        seq_end(v, j, cs) == Some(m),
    ensures
        seq_end(v, j, cs.push(d)) == node_end(v, m, d),
    decreases cs.len(),
{
    if cs.len() == 0 {
        assert(m == j);
        assert(cs.push(d).drop_first() =~= Seq::<DomNode>::empty());
        assert(cs.push(d)[0] == d);
        match node_end(v, j, d) {
            Some(e) => {
                assert(seq_end(v, e, Seq::<DomNode>::empty()) == Some(e));
            },
            None => {},
        }
    } else {
        let m0 = node_end(v, j, cs[0])->Some_0;
        assert(cs.push(d).drop_first() =~= cs.drop_first().push(d));
        assert(cs.push(d)[0] == cs[0]);
        lemma_seq_push(v, m0, cs.drop_first(), d, m);
    }
}

proof fn lemma_subtree_end_after(v: Seq<HtmlItemView>, i: int)
    ensures
        subtree_end(v, i) matches Some(e) ==> i < e <= v.len(),
    decreases v.len() - i, 0nat,
{
    if 0 <= i < v.len() {
        lemma_kids_end_after(v, i + 1, v[i].1 as nat);
    }
}

proof fn lemma_kids_end_after(v: Seq<HtmlItemView>, j: int, k: nat)
    ensures
        kids_end(v, j, k) matches Some(e) ==> j <= e && (k > 0 ==> e <= v.len()),
    decreases v.len() - j, k + 1,
{
    if k > 0 {
        lemma_subtree_end_after(v, j);
        match subtree_end(v, j) {
            Some(m) => if j < m <= v.len() {
                lemma_kids_end_after(v, m, (k - 1) as nat);
                if k - 1 == 0 {
                    assert(kids_end(v, m, 0) == Some(m));
                }
            },
            None => {},
        }
    }
}

fn clone_text(o: &Option<String>) -> (r: Option<String>)
    ensures
        opt_view(r) == opt_view(*o),
{
    match o {
        Some(s) => Some(s.clone()),
        None => None,
    }
}

fn clone_attrs(a: &Vec<(String, String)>) -> (r: Vec<(String, String)>)
    ensures
        attr_views(r@) == attr_views(a@),
{
    let mut r: Vec<(String, String)> = Vec::new();
    let mut i: usize = 0;
    while i < a.len()
        invariant
            i <= a@.len(),
            attr_views(r@) == attr_views(a@.take(i as int)),
        decreases a@.len() - i,
    {
        let ghost before = attr_views(r@);
        r.push((a[i].0.clone(), a[i].1.clone()));
        assert(attr_views(r@) =~= before.push((a@[i as int].0@, a@[i as int].1@)));
        assert(a@.take(i + 1) =~= a@.take(i as int).push(a@[i as int]));
        assert(attr_views(a@.take(i + 1)) =~= attr_views(a@.take(i as int)).push(
            (a@[i as int].0@, a@[i as int].1@),
        ));
        i = i + 1;
    }
    assert(a@.take(a@.len() as int) =~= a@);
    r
}

/// The tree listed from item `i` of `items`, and where its listing ends;
/// `None` where the list ends too early.
pub fn tree_at(items: &Vec<HtmlItem>, i: usize) -> (r: Option<(DomNode, usize)>)
    ensures
        match subtree_end(items_view(items@), i as int) {
            None => r is None,
            Some(e) => r matches Some((d, e2)) && e2 == e && node_end(items_view(items@), i as int, d)
                == Some(e),
        },
    decreases items@.len() - i,
{
    let ghost v = items_view(items@);
    if i >= items.len() {
        return None;
    }
    let k = items[i].1;
    assert(v[i as int] == item_view(items@[i as int]));
    let mut kids: Vec<DomNode> = Vec::new();
    let mut j: usize = i + 1;
    let mut c: usize = 0;
    while c < k
        invariant
            i < items@.len(),
            v == items_view(items@),
            k == v[i as int].1,
            i < j <= items@.len(),
            c <= k,
            kids@.len() == c,
            subtree_end(v, i as int) == kids_end(v, j as int, (k - c) as nat),
            seq_end(v, i + 1, kids@) == Some(j as int),
        decreases k - c,
    {
        proof {
            lemma_subtree_end_after(v, j as int);
        }
        match tree_at(items, j) {
            None => {
                return None;
            },
            Some((d, e)) => {
                proof {
                    lemma_seq_push(v, i + 1, kids@, d, j as int);
                }
                kids.push(d);
                j = e;
                c = c + 1;
            },
        }
    }
    let mut children: Vec<DomNode> = Vec::new();
    let ghost decoded = kids@;
    while kids.len() > 0
        invariant
            kids@.len() + children@.len() == decoded.len(),
            kids@ == decoded.take(kids@.len() as int),
            children@ == decoded.skip(kids@.len() as int).reverse(),
        decreases kids@.len(),
    {
        let ghost before = kids@;
        let x = kids.pop().unwrap();
        assert(decoded.skip(kids@.len() as int) =~= seq![x] + decoded.skip(before.len() as int));
        children.push(x);
        assert(children@ =~= decoded.skip(kids@.len() as int).reverse());
    }
    let d = DomNode {
        tag: clone_text(&items[i].0.0),
        attrs: clone_attrs(&items[i].0.1),
        text: clone_text(&items[i].0.2),
        children,
    };
    proof {
        assert(d.children@.reverse() =~= decoded);
        assert(d.children@.reverse().skip(0) =~= decoded);
        lemma_children_seq(v, i + 1, d, 0);
        assert(v[i as int] == node_item(d));
    }
    Some((d, j))
}

/// The document tree of the markup `html`, as the parser lists it; `None`
/// where the list does not make one tree.
pub fn html_tree(html: &str) -> (r: Option<DomNode>)
    ensures
        subtree_end(html_items(html@), 0) == Some(html_items(html@).len() as int) <==> r is Some,
        r matches Some(d) ==> node_end(html_items(html@), 0, d) == Some(
            html_items(html@).len() as int,
        ),
{
    let items = parse_html(html);
    match tree_at(&items, 0) {
        Some((d, e)) => {
            if e == items.len() {
                Some(d)
            } else {
                None
            }
        },
        None => None,
    }
}

} // verus!
