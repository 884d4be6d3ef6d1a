//! A document tree of markup, and the searches the status code tables are read
//! with: the first element with a given `id`, all elements with a given name in
//! document order, and the cells of table rows.

use vstd::prelude::*;
use crate::readelf::numbers::parse_usize;
use crate::html::{html_items, html_tree, node_end, subtree_end};
use crate::strs::{chars_eq, contains, contains_chars};
use crate::text::chars_of;
use crate::status::{
    StatusCode, StatusCodeInfo, code_of_row, high_bit, status_code_tables, row_readable,
    table_views,
};

verus! {

/// A node of a document: an element (with its name and attributes), a text
/// (with its contents), or another kind of node; and its children in order.
pub struct DomNode {
    /// The local name of an element.
    pub tag: Option<String>,
    /// The attributes of an element: local name and value.
    pub attrs: Vec<(String, String)>,
    /// The contents of a text node.
    pub text: Option<String>,
    pub children: Vec<DomNode>,
}

/// `n` is an element with an attribute `id` whose value is `id`.
pub open spec fn has_id(n: DomNode, id: Seq<char>) -> bool {
    n.tag is Some && exists|i: int|
        0 <= i < n.attrs@.len() && (#[trigger] n.attrs@[i]).0@ == "id"@ && n.attrs@[i].1@ == id
}

/// The first node in document order, starting at `n`, with the `id`.
pub open spec fn find_by_id(n: DomNode, id: Seq<char>) -> Option<DomNode>
    decreases n, n.children@.len() + 1,
{
    if has_id(n, id) {
        Some(n)
    } else {
        find_in_children(n, id, 0)
    }
}

/// The first node with the `id` in the subtrees of children `k` and later of `n`.
pub open spec fn find_in_children(n: DomNode, id: Seq<char>, k: nat) -> Option<DomNode>
    decreases n, n.children@.len() - k,
{
    if k >= n.children@.len() {
        None
    } else {
        proof {
            assert(decreases_to!(n => n.children));
            assert(decreases_to!(n.children => n.children@));
            assert(decreases_to!(n.children@ => n.children@[k as int]));
        }
        match find_by_id(n.children@[k as int], id) {
            Some(x) => Some(x),
            None => find_in_children(n, id, k + 1),
        }
    }
}

/// `n` is an element named `tag`.
pub open spec fn is_named(n: DomNode, tag: Seq<char>) -> bool {
    n.tag matches Some(t) && t@ == tag
}

/// The elements named `tag` in the subtree of `n`, in document order.
pub open spec fn named_elements(n: DomNode, tag: Seq<char>) -> Seq<DomNode>
    decreases n, n.children@.len() + 1,
{
    (if is_named(n, tag) {
        seq![n]
    } else {
        seq![]
    }) + named_in_children(n, tag, 0)
}

/// The elements named `tag` in the subtrees of children `k` and later of `n`.
pub open spec fn named_in_children(n: DomNode, tag: Seq<char>, k: nat) -> Seq<DomNode>
    decreases n, n.children@.len() - k,
{
    if k >= n.children@.len() {
        seq![]
    } else {
        proof {
            assert(decreases_to!(n => n.children));
            assert(decreases_to!(n.children => n.children@));
            assert(decreases_to!(n.children@ => n.children@[k as int]));
        }
        named_elements(n.children@[k as int], tag) + named_in_children(n, tag, k + 1)
    }
}

fn text_eq(a: &String, b: &str) -> (r: bool)
    ensures
        r == (a@ == b@),
{
    let x = chars_of(a.as_str());
    let y = chars_of(b);
    chars_eq(x.as_slice(), y.as_slice())
}

fn node_has_id(n: &DomNode, id: &str) -> (b: bool)
    ensures
        b == has_id(*n, id@),
{
    if n.tag.is_none() {
        return false;
    }
    let mut i: usize = 0;
    while i < n.attrs.len()
        invariant
            i <= n.attrs@.len(),
            n.tag is Some,
            forall|j: int|
                0 <= j < i ==> !((#[trigger] n.attrs@[j]).0@ == "id"@ && n.attrs@[j].1@ == id@),
        decreases n.attrs@.len() - i,
    {
        if text_eq(&n.attrs[i].0, "id") && text_eq(&n.attrs[i].1, id) {
            return true;
        }
        i = i + 1;
    }
    false
}

/// The first node in document order, starting at `node`, whose `id` is `id`.
pub fn get_element_by_id<'a>(node: &'a DomNode, id: &str) -> (r: Option<&'a DomNode>)
    ensures
        match find_by_id(*node, id@) {
            Some(x) => r matches Some(y) && *y == x,
            None => r is None,
        },
    decreases *node, node.children@.len() + 1,
{
    if node_has_id(node, id) {
        return Some(node);
    }
    let mut k: usize = 0;
    while k < node.children.len()
        invariant
            k <= node.children@.len(),
            !has_id(*node, id@),
            find_by_id(*node, id@) == find_in_children(*node, id@, k as nat),
        decreases node.children@.len() - k,
    {
        assert(decreases_to!(*node => node.children@[k as int])) by {
            assert(decreases_to!(*node => node.children));
            assert(decreases_to!(node.children => node.children@));
            assert(decreases_to!(node.children@ => node.children@[k as int]));
        }
        let found = get_element_by_id(&node.children[k], id);
        if found.is_some() {
            return found;
        }
        k = k + 1;
    }
    None
}

fn node_named(n: &DomNode, tag: &str) -> (b: bool)
    ensures
        b == is_named(*n, tag@),
{
    match &n.tag {
        Some(t) => text_eq(t, tag),
        None => false,
    }
}

/// The views of a list of node references.
pub open spec fn node_views<'a>(v: Seq<&'a DomNode>) -> Seq<DomNode> {
    v.map_values(|x: &'a DomNode| *x)
}

/// Appends the elements named `tag` in the subtree of `node` to `out`, in
/// document order.
fn collect_named<'a>(node: &'a DomNode, tag: &str, out: &mut Vec<&'a DomNode>)
    ensures
        node_views(final(out)@) == node_views(old(out)@) + named_elements(*node, tag@),
    decreases *node, node.children@.len() + 1,
{
    let ghost start = node_views(out@);
    if node_named(node, tag) {
        out.push(node);
        assert(node_views(out@) =~= start + seq![*node]);
    } else {
        assert(node_views(out@) =~= start + Seq::<DomNode>::empty());
    }
    let ghost first = if is_named(*node, tag@) {
        seq![*node]
    } else {
        Seq::<DomNode>::empty()
    };
    let mut k: usize = 0;
    while k < node.children.len()
        invariant
            k <= node.children@.len(),
            node_views(out@) + named_in_children(*node, tag@, k as nat) == start + first
                + named_in_children(*node, tag@, 0),
        decreases node.children@.len() - k,
    {
        assert(decreases_to!(*node => node.children@[k as int])) by {
            assert(decreases_to!(*node => node.children));
            assert(decreases_to!(node.children => node.children@));
            assert(decreases_to!(node.children@ => node.children@[k as int]));
        }
        let ghost before = node_views(out@);
        collect_named(&node.children[k], tag, out);
        assert(named_in_children(*node, tag@, k as nat) == named_elements(
            node.children@[k as int],
            tag@,
        ) + named_in_children(*node, tag@, (k + 1) as nat));
        assert(node_views(out@) + named_in_children(*node, tag@, (k + 1) as nat) =~= before
            + named_in_children(*node, tag@, k as nat));
        k = k + 1;
    }
    assert(named_in_children(*node, tag@, k as nat) =~= Seq::<DomNode>::empty());
    assert(node_views(out@) =~= node_views(out@) + named_in_children(*node, tag@, k as nat));
}

/// The elements named `tag` in the subtree of `node`, in document order.
pub fn get_elements_by_name<'a>(node: &'a DomNode, tag: &str) -> (r: Vec<&'a DomNode>)
    ensures
        node_views(r@) == named_elements(*node, tag@),
{
    let mut out: Vec<&'a DomNode> = Vec::new();
    collect_named(node, tag, &mut out);
    assert(node_views(out@) =~= named_elements(*node, tag@));
    out
}

/// `n` is an element with an attribute named `attr` whose value contains `value`.
pub open spec fn has_attr_containing(n: DomNode, attr: Seq<char>, value: Seq<char>) -> bool {
    n.tag is Some && exists|i: int|
        0 <= i < n.attrs@.len() && (#[trigger] n.attrs@[i]).0@ == attr && contains(
            n.attrs@[i].1@,
            value,
        )
}

/// The elements of the subtree of `n` with an attribute `attr` whose value
/// contains `value`, in document order.
pub open spec fn elements_with_attr(n: DomNode, attr: Seq<char>, value: Seq<char>) -> Seq<DomNode>
    decreases n, n.children@.len() + 1,
{
    (if has_attr_containing(n, attr, value) {
        seq![n]
    } else {
        seq![]
    }) + attr_in_children(n, attr, value, 0)
}

/// The elements with the attribute in the subtrees of children `k` and later of `n`.
pub open spec fn attr_in_children(n: DomNode, attr: Seq<char>, value: Seq<char>, k: nat) -> Seq<
    DomNode,
>
    decreases n, n.children@.len() - k,
{
    if k >= n.children@.len() {
        seq![]
    } else {
        proof {
            assert(decreases_to!(n => n.children));
            assert(decreases_to!(n.children => n.children@));
            assert(decreases_to!(n.children@ => n.children@[k as int]));
        }
        elements_with_attr(n.children@[k as int], attr, value) + attr_in_children(
            n,
            attr,
            value,
            k + 1,
        )
    }
}

fn node_has_attr(n: &DomNode, attr: &str, value: &str) -> (b: bool)
    ensures
        b == has_attr_containing(*n, attr@, value@),
{
    if n.tag.is_none() {
        return false;
    }
    let want = chars_of(value);
    let mut i: usize = 0;
    while i < n.attrs.len()
        invariant
            i <= n.attrs@.len(),
            n.tag is Some,
            want@ == value@,
            forall|j: int|
                0 <= j < i ==> !((#[trigger] n.attrs@[j]).0@ == attr@ && contains(
                    n.attrs@[j].1@,
                    value@,
                )),
        decreases n.attrs@.len() - i,
    {
        if text_eq(&n.attrs[i].0, attr) {
            let v = chars_of(n.attrs[i].1.as_str());
            if contains_chars(v.as_slice(), want.as_slice()) {
                return true;
            }
        }
        i = i + 1;
    }
    false
}

fn collect_with_attr<'a>(node: &'a DomNode, attr: &str, value: &str, out: &mut Vec<&'a DomNode>)
    ensures
        node_views(final(out)@) == node_views(old(out)@) + elements_with_attr(*node, attr@, value@),
    decreases *node, node.children@.len() + 1,
{
    let ghost start = node_views(out@);
    if node_has_attr(node, attr, value) {
        out.push(node);
        assert(node_views(out@) =~= start + seq![*node]);
    } else {
        assert(node_views(out@) =~= start + Seq::<DomNode>::empty());
    }
    let ghost first = if has_attr_containing(*node, attr@, value@) {
        seq![*node]
    } else {
        Seq::<DomNode>::empty()
    };
    let mut k: usize = 0;
    while k < node.children.len()
        invariant
            k <= node.children@.len(),
            node_views(out@) + attr_in_children(*node, attr@, value@, k as nat) == start + first
                + attr_in_children(*node, attr@, value@, 0),
        decreases node.children@.len() - k,
    {
        assert(decreases_to!(*node => node.children@[k as int])) by {
            assert(decreases_to!(*node => node.children));
            assert(decreases_to!(node.children => node.children@));
            assert(decreases_to!(node.children@ => node.children@[k as int]));
        }
        let ghost before = node_views(out@);
        collect_with_attr(&node.children[k], attr, value, out);
        assert(attr_in_children(*node, attr@, value@, k as nat) == elements_with_attr(
            node.children@[k as int],
            attr@,
            value@,
        ) + attr_in_children(*node, attr@, value@, (k + 1) as nat));
        assert(node_views(out@) + attr_in_children(*node, attr@, value@, (k + 1) as nat) =~= before
            + attr_in_children(*node, attr@, value@, k as nat));
        k = k + 1;
    }
    assert(attr_in_children(*node, attr@, value@, k as nat) =~= Seq::<DomNode>::empty());
    assert(node_views(out@) =~= node_views(out@) + attr_in_children(*node, attr@, value@, k as nat));
}

/// The elements of the subtree of `node` with an attribute `attr` whose value
/// contains `value`, in document order.
pub fn get_elements_by_attribute<'a>(node: &'a DomNode, attr: &str, value: &str) -> (r: Vec<
    &'a DomNode,
>)
    ensures
        node_views(r@) == elements_with_attr(*node, attr@, value@),
{
    let mut out: Vec<&'a DomNode> = Vec::new();
    collect_with_attr(node, attr, value, &mut out);
    assert(node_views(out@) =~= elements_with_attr(*node, attr@, value@));
    out
}

/// The rows of a table after its header row.
pub open spec fn table_rows(table: DomNode) -> Seq<DomNode> {
    named_elements(table, "tr"@).drop_first()
}

/// The contents of the text node that is the first child of `n`.
pub open spec fn first_text(n: DomNode) -> Option<Seq<char>> {
    if n.children@.len() > 0 {
        match n.children@[0].text {
            Some(t) => Some(t@),
            None => None,
        }
    } else {
        None
    }
}

/// A table row whose first three paragraphs each start with a text node.
pub open spec fn row_has_cells(row: DomNode) -> bool {
    let ps = named_elements(row, "p"@);
    ps.len() >= 3 && first_text(ps[0]) is Some && first_text(ps[1]) is Some && first_text(ps[2])
        is Some
}

/// The cells of a table row: the texts that start its first three paragraphs.
pub open spec fn row_cells(row: DomNode) -> Seq<Seq<char>> {
    let ps = named_elements(row, "p"@);
    seq![first_text(ps[0])->Some_0, first_text(ps[1])->Some_0, first_text(ps[2])->Some_0]
}

fn first_text_of(n: &DomNode) -> (r: String)
    requires
        first_text(*n) is Some,
    ensures
        r@ == first_text(*n)->Some_0,
{
    match &n.children[0].text {
        Some(t) => t.clone(),
        None => String::new(),
    }
}

/// The cells of a table row.
pub fn table_data(row: &DomNode) -> (r: Vec<String>)
    requires
        row_has_cells(*row),
    ensures
        r@.map_values(|c: String| c@) == row_cells(*row),
{
    let ps = get_elements_by_name(row, "p");
    proof {
        reveal_strlit("p");
    }
    assert(*ps@[0] == named_elements(*row, "p"@)[0]);
    assert(*ps@[1] == named_elements(*row, "p"@)[1]);
    assert(*ps@[2] == named_elements(*row, "p"@)[2]);
    let mut r: Vec<String> = Vec::new();
    r.push(first_text_of(ps[0]));
    r.push(first_text_of(ps[1]));
    r.push(first_text_of(ps[2]));
    assert(r@.map_values(|c: String| c@) =~= row_cells(*row));
    r
}

/// The rows of a table, after its header row, as lists of cells.
pub fn table_cells(table: &DomNode) -> (r: Vec<Vec<String>>)
    requires
        named_elements(*table, "tr"@).len() >= 1,
        forall|i: int| 0 <= i < table_rows(*table).len() ==> row_has_cells(#[trigger] table_rows(*table)[i]),
    ensures
        r@.len() == table_rows(*table).len(),
        forall|i: int|
            0 <= i < r@.len() ==> (#[trigger] r@[i])@.map_values(|c: String| c@) == row_cells(
                table_rows(*table)[i],
            ),
{
    let trs = get_elements_by_name(table, "tr");
    proof {
        reveal_strlit("tr");
    }
    let ghost rows = table_rows(*table);
    let mut r: Vec<Vec<String>> = Vec::new();
    let mut i: usize = 1;
    while i < trs.len()
        invariant
            1 <= i <= trs@.len(),
            node_views(trs@) == named_elements(*table, "tr"@),
            rows == table_rows(*table),
            forall|j: int| 0 <= j < rows.len() ==> row_has_cells(#[trigger] rows[j]),
            r@.len() == i - 1,
            forall|j: int|
                0 <= j < r@.len() ==> (#[trigger] r@[j])@.map_values(|c: String| c@) == row_cells(
                    rows[j],
                ),
        decreases trs@.len() - i,
    {
        assert(*trs@[i as int] == rows[i - 1]);
        r.push(table_data(trs[i]));
        i = i + 1;
    }
    r
}

/// The id of the section of the status code page.
pub const MAIN_SECTION_ID: &'static str = "status-codes";
/// The id of the table of success codes.
pub const SUCCESS_CODE_TABLE_ID: &'static str = "efi-status-success-codes-high-bit-clear-apx-d-status-codes";
/// The id of the table of error codes.
pub const ERROR_CODE_TABLE_ID: &'static str = "efi-status-error-codes-high-bit-set-apx-d-status-codes";
/// The id of the table of warning codes.
pub const WARN_CODE_TABLE_ID: &'static str = "efi-status-warning-codes-high-bit-clear-apx-d-status-codes";

/// The rows of `table` can be read as status codes.
pub open spec fn code_table_readable(table: DomNode) -> bool {
    &&& named_elements(table, "tr"@).len() >= 1
    &&& forall|i: int|
        0 <= i < table_rows(table).len() ==> row_has_cells(#[trigger] table_rows(table)[i])
            && row_readable(row_cells(table_rows(table)[i]))
}

/// The status code page can be read: it has the main section, and each of its
/// tables that is present can be read.
pub open spec fn status_page_readable(doc: DomNode) -> bool {
    &&& find_by_id(doc, MAIN_SECTION_ID@) is Some
    &&& forall|id: Seq<char>|
        #![trigger find_by_id(find_by_id(doc, MAIN_SECTION_ID@)->Some_0, id)]
        (id == SUCCESS_CODE_TABLE_ID@ || id == ERROR_CODE_TABLE_ID@ || id == WARN_CODE_TABLE_ID@)
            && find_by_id(find_by_id(doc, MAIN_SECTION_ID@)->Some_0, id) is Some
            ==> code_table_readable(find_by_id(find_by_id(doc, MAIN_SECTION_ID@)->Some_0, id)->Some_0)
}

/// `codes` are the codes of the rows of `table`, in order: mnemonic, decimal
/// value and description.
pub open spec fn codes_of_table(codes: Seq<StatusCodeInfo>, table: DomNode) -> bool {
    &&& codes.len() == table_rows(table).len()
    &&& forall|i: int|
        0 <= i < codes.len() ==> (#[trigger] codes[i])@ == code_of_row(
            row_cells(table_rows(table)[i]),
        )
}

/// `codes` are the codes of the rows of the error table `table`, in order, each
/// value with the error bit set.
pub open spec fn error_codes_of_table(codes: Seq<StatusCodeInfo>, table: DomNode) -> bool {
    &&& codes.len() == table_rows(table).len()
    &&& forall|i: int|
        0 <= i < codes.len() ==> {
            let c = code_of_row(row_cells(table_rows(table)[i]));
            &&& (#[trigger] codes[i]).value == c.value | (high_bit() as usize)
            &&& codes[i].mnemonic@ == c.mnemonic
            &&& codes[i].desc@ == c.desc
        }
}

fn table_by_id<'a>(main: &'a DomNode, id: &str) -> (r: Result<&'a DomNode, String>)
    ensures
        match find_by_id(*main, id@) {
            Some(x) => r matches Ok(y) && *y == x,
            None => r matches Err(m) && m@ == "ELEMENT WITH ID NOT FOUND: "@ + id@,
        },
{
    match get_element_by_id(main, id) {
        Some(t) => Ok(t),
        None => {
            let mut m = String::from_str("ELEMENT WITH ID NOT FOUND: ");
            m.append(id);
            Err(m)
        },
    }
}

/// What reading the tables of the page `doc` gives in `r`: an error naming the
/// first of the success, error and warning tables that the main section lacks;
/// otherwise the codes of the three tables, the error codes with the error bit
/// set.
pub open spec fn tables_read(doc: DomNode, r: Result<StatusCode, String>) -> bool {
    let main = find_by_id(doc, MAIN_SECTION_ID@)->Some_0;
    if find_by_id(main, SUCCESS_CODE_TABLE_ID@) is None {
        r matches Err(m) && m@ == "ELEMENT WITH ID NOT FOUND: "@ + SUCCESS_CODE_TABLE_ID@
    } else if find_by_id(main, ERROR_CODE_TABLE_ID@) is None {
        r matches Err(m) && m@ == "ELEMENT WITH ID NOT FOUND: "@ + ERROR_CODE_TABLE_ID@
    } else if find_by_id(main, WARN_CODE_TABLE_ID@) is None {
        r matches Err(m) && m@ == "ELEMENT WITH ID NOT FOUND: "@ + WARN_CODE_TABLE_ID@
    } else {
        r matches Ok(t) && codes_of_table(
            t.success@,
            find_by_id(main, SUCCESS_CODE_TABLE_ID@)->Some_0,
        ) && error_codes_of_table(
            t.error@,
            find_by_id(main, ERROR_CODE_TABLE_ID@)->Some_0,
        ) && codes_of_table(t.warn@, find_by_id(main, WARN_CODE_TABLE_ID@)->Some_0)
    }
}

/// Reads the status code tables of the page: the main section, then its
/// success, error and warning tables (a missing table is an error naming its
/// id), each row giving a code; error codes get the error bit.
pub fn status_tables(doc: &DomNode) -> (r: Result<StatusCode, String>)
    requires
        status_page_readable(*doc),
    ensures
        tables_read(*doc, r),
{
    let main = get_element_by_id(doc, MAIN_SECTION_ID).unwrap();
    let success_table = table_by_id(main, SUCCESS_CODE_TABLE_ID)?;
    let error_table = table_by_id(main, ERROR_CODE_TABLE_ID)?;
    let warn_table = table_by_id(main, WARN_CODE_TABLE_ID)?;
    assert(code_table_readable(*success_table));
    assert(code_table_readable(*error_table));
    assert(code_table_readable(*warn_table));
    let success_rows = table_cells(success_table);
    let error_rows = table_cells(error_table);
    let warn_rows = table_cells(warn_table);
    assert forall|i: int| 0 <= i < success_rows@.len() implies row_readable(
        #[trigger] table_views(success_rows@)[i],
    ) by {
        assert(table_views(success_rows@)[i] == success_rows@[i]@.map_values(|c: String| c@));
    }
    assert forall|i: int| 0 <= i < error_rows@.len() implies row_readable(
        #[trigger] table_views(error_rows@)[i],
    ) by {
        assert(table_views(error_rows@)[i] == error_rows@[i]@.map_values(|c: String| c@));
    }
    assert forall|i: int| 0 <= i < warn_rows@.len() implies row_readable(
        #[trigger] table_views(warn_rows@)[i],
    ) by {
        assert(table_views(warn_rows@)[i] == warn_rows@[i]@.map_values(|c: String| c@));
    }
    let t = status_code_tables(success_rows, error_rows, warn_rows);
    assert forall|i: int| 0 <= i < t.success@.len() implies (#[trigger] t.success@[i])@
        == code_of_row(row_cells(table_rows(*success_table)[i])) by {
        assert(table_views(success_rows@)[i] == success_rows@[i]@.map_values(|c: String| c@));
    }
    assert forall|i: int| 0 <= i < t.warn@.len() implies (#[trigger] t.warn@[i])@
        == code_of_row(row_cells(table_rows(*warn_table)[i])) by {
        assert(table_views(warn_rows@)[i] == warn_rows@[i]@.map_values(|c: String| c@));
    }
    assert forall|i: int| 0 <= i < t.error@.len() implies {
        let c = code_of_row(row_cells(table_rows(*error_table)[i]));
        &&& (#[trigger] t.error@[i]).value == c.value | (high_bit() as usize)
        &&& t.error@[i].mnemonic@ == c.mnemonic
        &&& t.error@[i].desc@ == c.desc
    } by {
        assert(table_views(error_rows@)[i] == error_rows@[i]@.map_values(|c: String| c@));
    }
    Ok(t)
}

/// Whether the first child of `n` is a text node.
fn has_first_text(n: &DomNode) -> (b: bool)
    ensures
        b == (first_text(*n) is Some),
{
    n.children.len() > 0 && n.children[0].text.is_some()
}

/// Whether `row` has its three cells and its second cell is a decimal number.
fn row_readable_at(row: &DomNode) -> (b: bool)
    ensures
        b == (row_has_cells(*row) && row_readable(row_cells(*row))),
{
    let ps = get_elements_by_name(row, "p");
    proof {
        reveal_strlit("p");
    }
    if ps.len() < 3 {
        return false;
    }
    assert(*ps@[0] == named_elements(*row, "p"@)[0]);
    assert(*ps@[1] == named_elements(*row, "p"@)[1]);
    assert(*ps@[2] == named_elements(*row, "p"@)[2]);
    if !(has_first_text(ps[0]) && has_first_text(ps[1]) && has_first_text(ps[2])) {
        return false;
    }
    let cells = table_data(row);
    assert(cells@.map_values(|c: String| c@).len() == 3);
    assert(cells@.map_values(|c: String| c@)[1] == row_cells(*row)[1]);
    let digits = chars_of(cells[1].as_str());
    parse_usize(digits.as_slice()).is_ok()
}

/// Whether the rows of `table` can be read as status codes.
fn table_readable(table: &DomNode) -> (b: bool)
    ensures
        b == code_table_readable(*table),
{
    let trs = get_elements_by_name(table, "tr");
    proof {
        reveal_strlit("tr");
    }
    if trs.len() < 1 {
        return false;
    }
    let ghost rows = table_rows(*table);
    let mut i: usize = 1;
    while i < trs.len()
        invariant
            1 <= i <= trs@.len(),
            node_views(trs@) == named_elements(*table, "tr"@),
            rows == table_rows(*table),
            forall|j: int|
                0 <= j < i - 1 ==> row_has_cells(#[trigger] rows[j]) && row_readable(
                    row_cells(rows[j]),
                ),
        decreases trs@.len() - i,
    {
        assert(*trs@[i as int] == rows[i - 1]);
        if !row_readable_at(trs[i]) {
            return false;
        }
        i = i + 1;
    }
    true
}

/// Whether the table with `id` in `main`, if there is one, can be read.
fn present_table_readable(main: &DomNode, id: &str) -> (b: bool)
    ensures
        b == (find_by_id(*main, id@) is Some ==> code_table_readable(find_by_id(*main, id@)->Some_0)),
{
    match get_element_by_id(main, id) {
        Some(t) => table_readable(t),
        None => true,
    }
}

/// Whether the tables of the page `doc` can be read.
fn page_readable(doc: &DomNode) -> (b: bool)
    ensures
        b == status_page_readable(*doc),
{
    match get_element_by_id(doc, MAIN_SECTION_ID) {
        None => false,
        Some(main) => {
            let s = present_table_readable(main, SUCCESS_CODE_TABLE_ID);
            let e = present_table_readable(main, ERROR_CODE_TABLE_ID);
            let w = present_table_readable(main, WARN_CODE_TABLE_ID);
            s && e && w
        },
    }
}

/// The message for a status code page whose tables cannot be read.
pub open spec fn unreadable_page_text() -> Seq<char> {
    "status code page is not readable"@
}

/// Reads the status code tables from the markup of the status code page: the
/// page is parsed into its document tree, which must be one tree; a page
/// without the main section, or with a table whose rows are not three cells
/// with a decimal value, is refused; otherwise the result is what
/// `status_tables` reads from the tree.
pub fn status_spec_page(page: &str) -> (r: Result<StatusCode, String>)
    ensures
        subtree_end(html_items(page@), 0) != Some(html_items(page@).len() as int) ==> (r matches Err(
            m,
        ) && m@ == unreadable_page_text()),
        subtree_end(html_items(page@), 0) == Some(html_items(page@).len() as int) ==> exists|
            d: DomNode,
        |
            #[trigger] node_end(html_items(page@), 0, d) == Some(html_items(page@).len() as int) && (
            status_page_readable(d) ==> tables_read(d, r)) && (!status_page_readable(d) ==> (r matches Err(
                m,
            ) && m@ == unreadable_page_text())),
{
    let doc = match html_tree(page) {
        Some(d) => d,
        None => {
            return Err(String::from_str("status code page is not readable"));
        },
    };
    assert(node_end(html_items(page@), 0, doc) == Some(html_items(page@).len() as int));
    if !page_readable(&doc) {
        return Err(String::from_str("status code page is not readable"));
    }
    status_tables(&doc)
}

} // verus!
