//! The Spark master's status page: reading its tables out of the HTML, and
//! the summary the `logs` command shows.
use html5ever::rcdom::{Node, NodeData};
use soup::{QueryBuilderExt, Soup};
use vstd::prelude::*;
use crate::text::{
    clean, clean_exec, decimal, join, lemma_decimal, lemma_parse_decimal, lemma_split_join, parse_i32,
    parse_i32_exec, replace, replace_exec, second_piece, second_piece_exec, split_char, split_char_exec, str_eq,
    views,
};

verus! {

/// A node of a parsed HTML document.
#[verifier::external_type_specification]
#[verifier::external_body]
pub struct ExNode(Node);

/// What a node of a parsed HTML document is: an element with its name, a
/// text with its contents, or another kind of node (the document itself, a
/// comment, a doctype, ...).
#[derive(Debug, PartialEq, Eq)]
pub enum HtmlKind {
    Element(String),
    Text(String),
    Other,
}

/// A node of a parsed HTML document with its children, in document order.
#[derive(Debug, PartialEq, Eq)]
pub struct HtmlNode {
    pub kind: HtmlKind,
    pub children: Vec<HtmlNode>,
}

/// The document tree that `soup::Soup::new` parses `html` into, from the
/// document node down.
pub uninterp spec fn html_tree(html: Seq<char>) -> HtmlNode;

/// `soup::Soup::new`: parses `html` (with `html5ever`), giving the document
/// node as an `HtmlNode`. Claimed: the tree is what `html_tree` names for the
/// text, which depends on the text alone.
#[verifier::external_body]
fn parse_html(html: &str) -> (r: HtmlNode)
    ensures
        r == html_tree(html@),
{
    html_node(&Soup::new(html).get_handle())
}

/// The conversion of a parsed node into an `HtmlNode`, one kind for each of
/// `NodeData`'s element and text variants, with its children in order. Only
/// `parse_html` uses it, and the claim on the result is stated there.
#[verifier::external_body]
fn html_node(n: &Node) -> HtmlNode {
    let kind = match &n.data {
        NodeData::Element { name, .. } => HtmlKind::Element(name.local.to_string()),
        NodeData::Text { contents } => HtmlKind::Text(contents.borrow().to_string()),
        _ => HtmlKind::Other,
    };
    HtmlNode { kind, children: n.children.borrow().iter().map(|c| html_node(c)).collect() }
}

/// Whether the node is an element named `tag`.
pub open spec fn is_tag(n: HtmlNode, tag: Seq<char>) -> bool {
    n.kind matches HtmlKind::Element(name) && name@ == tag
}

/// The elements named `tag` among the nodes `ns` and their descendants, in
/// document order: each node before its descendants.
pub open spec fn found_in(ns: Seq<HtmlNode>, tag: Seq<char>) -> Seq<HtmlNode>
    decreases ns,
{
    if ns.len() == 0 {
        Seq::empty()
    } else {
        proof {
            assert(decreases_to!(ns => ns[ns.len() - 1]));
            assert(decreases_to!(ns[ns.len() - 1] => ns[ns.len() - 1].children));
            assert(decreases_to!(ns[ns.len() - 1].children => ns[ns.len() - 1].children@));
        }
        let n = ns[ns.len() - 1];
        found_in(ns.drop_last(), tag) + (if is_tag(n, tag) {
            seq![n]
        } else {
            Seq::empty()
        }) + found_in(n.children@, tag)
    }
}

/// What soup's `tag(tag).find_all()` gives from the node `n`: the elements
/// named `tag` among `n` itself and its descendants, in document order.
pub open spec fn found_all(n: HtmlNode, tag: Seq<char>) -> Seq<HtmlNode> {
    found_in(seq![n], tag)
}

/// What soup's `tag(tag).find()` gives from `n`: the first of `found_all`.
pub open spec fn first_found(n: HtmlNode, tag: Seq<char>) -> Option<HtmlNode> {
    if found_all(n, tag).len() > 0 {
        Some(found_all(n, tag)[0])
    } else {
        None
    }
}

/// The texts of the nodes `ns` and their descendants, in document order.
pub open spec fn texts_in(ns: Seq<HtmlNode>) -> Seq<char>
    decreases ns,
{
    if ns.len() == 0 {
        Seq::empty()
    } else {
        proof {
            assert(decreases_to!(ns => ns[ns.len() - 1]));
            assert(decreases_to!(ns[ns.len() - 1] => ns[ns.len() - 1].children));
            assert(decreases_to!(ns[ns.len() - 1].children => ns[ns.len() - 1].children@));
        }
        let n = ns[ns.len() - 1];
        texts_in(ns.drop_last()) + (match n.kind {
            HtmlKind::Text(t) => t@,
            _ => Seq::empty(),
        }) + texts_in(n.children@)
    }
}

/// What soup's `text()` gives for `n`: the texts under it, joined.
pub open spec fn text_of(n: HtmlNode) -> Seq<char> {
    texts_in(seq![n])
}

/// Finding the first element of each name in turn, each under the one
/// before; the first name that is not found is the error.
pub open spec fn chain(n: HtmlNode, tags: Seq<Seq<char>>) -> Result<HtmlNode, Seq<char>>
    decreases tags.len(),
{
    if tags.len() == 0 {
        Ok(n)
    } else {
        match chain(n, tags.drop_last()) {
            Err(t) => Err(t),
            Ok(m) => match first_found(m, tags.last()) {
                Some(x) => Ok(x),
                None => Err(tags.last()),
            },
        }
    }
}

/// The references, dereferenced.
pub open spec fn derefs(s: Seq<&HtmlNode>) -> Seq<HtmlNode> {
    s.map_values(|x: &HtmlNode| *x)
}

fn is_tag_exec(n: &HtmlNode, tag: &str) -> (b: bool)
    ensures
        b == is_tag(*n, tag@),
{
    match &n.kind {
        HtmlKind::Element(name) => str_eq(name.as_str(), tag),
        _ => false,
    }
}

/// Adds the elements named `tag` among `ns` and their descendants to `out`.
fn collect_in<'a>(ns: &'a Vec<HtmlNode>, tag: &str, out: &mut Vec<&'a HtmlNode>)
    ensures
        derefs(final(out)@) == derefs(old(out)@) + found_in(ns@, tag@),
    decreases ns@,
{
    let ghost start = derefs(out@);
    let mut i: usize = 0;
    while i < ns.len()
        invariant
            i <= ns.len(),
            derefs(out@) == start + found_in(ns@.take(i as int), tag@),
        decreases ns.len() - i,
    {
        let ghost before = derefs(out@);
        let n = &ns[i];
        assert(ns@.take(i + 1).drop_last() =~= ns@.take(i as int));
        assert(ns@.take(i + 1)[i as int] == ns@[i as int]);
        if is_tag_exec(n, tag) {
            out.push(n);
            assert(derefs(out@) =~= before + seq![*n]);
        } else {
            assert(derefs(out@) =~= before + Seq::<HtmlNode>::empty());
        }
        let ghost mid = derefs(out@);
        proof {
            assert(decreases_to!(ns@ => ns@[i as int]));
            assert(decreases_to!(ns@[i as int] => ns@[i as int].children));
            assert(decreases_to!(ns@[i as int].children => ns@[i as int].children@));
        }
        collect_in(&n.children, tag, out);
        assert(derefs(out@) =~= start + found_in(ns@.take(i + 1), tag@));
        i = i + 1;
    }
    assert(ns@.take(ns.len() as int) =~= ns@);
}

/// The elements named `tag` among `n` and its descendants, in document order
/// (soup's `tag(tag).find_all()` from `n`).
fn find_all<'a>(n: &'a HtmlNode, tag: &str) -> (r: Vec<&'a HtmlNode>)
    ensures
        derefs(r@) == found_all(*n, tag@),
{
    let mut out: Vec<&'a HtmlNode> = Vec::new();
    assert(derefs(out@) =~= Seq::<HtmlNode>::empty());
    assert(seq![*n].drop_last() =~= Seq::<HtmlNode>::empty());
    if is_tag_exec(n, tag) {
        out.push(n);
        assert(derefs(out@) =~= seq![*n]);
    }
    collect_in(&n.children, tag, &mut out);
    let ghost one = seq![*n];
    assert(one[one.len() - 1] == *n);
    assert(found_in(one.drop_last(), tag@) == Seq::<HtmlNode>::empty());
    assert(found_all(*n, tag@) == found_in(one.drop_last(), tag@) + (if is_tag(*n, tag@) {
        seq![*n]
    } else {
        Seq::empty()
    }) + found_in(n.children@, tag@));
    assert(derefs(out@) =~= found_all(*n, tag@));
    out
}

/// The first element named `tag` among `n` and its descendants (soup's
/// `tag(tag).find()` from `n`).
fn find<'a>(n: &'a HtmlNode, tag: &str) -> (r: Option<&'a HtmlNode>)
    ensures
        match r {
            Some(m) => first_found(*n, tag@) == Some(*m),
            None => first_found(*n, tag@) is None,
        },
{
    let all = find_all(n, tag);
    if all.len() > 0 {
        assert(derefs(all@)[0] == *all@[0]);
        Some(all[0])
    } else {
        None
    }
}

/// Appends the texts of `ns` and their descendants to `out`.
fn text_into(ns: &Vec<HtmlNode>, out: &mut String)
    ensures
        final(out)@ == old(out)@ + texts_in(ns@),
    decreases ns@,
{
    let ghost start = out@;
    let mut i: usize = 0;
    while i < ns.len()
        invariant
            i <= ns.len(),
            out@ == start + texts_in(ns@.take(i as int)),
        decreases ns.len() - i,
    {
        let ghost before = out@;
        let n = &ns[i];
        assert(ns@.take(i + 1).drop_last() =~= ns@.take(i as int));
        assert(ns@.take(i + 1)[i as int] == ns@[i as int]);
        match &n.kind {
            HtmlKind::Text(t) => {
                out.append(t.as_str());
            },
            _ => {},
        }
        assert(out@ =~= before + (match n.kind {
            HtmlKind::Text(t) => t@,
            _ => Seq::empty(),
        }));
        proof {
            assert(decreases_to!(ns@ => ns@[i as int]));
            assert(decreases_to!(ns@[i as int] => ns@[i as int].children));
            assert(decreases_to!(ns@[i as int].children => ns@[i as int].children@));
        }
        text_into(&n.children, out);
        assert(out@ =~= start + texts_in(ns@.take(i + 1)));
        i = i + 1;
    }
    assert(ns@.take(ns.len() as int) =~= ns@);
}

/// The text under `n` (soup's `text()`).
fn text(n: &HtmlNode) -> (r: String)
    ensures
        r@ == text_of(*n),
{
    let mut out = String::new();
    assert(seq![*n].drop_last() =~= Seq::<HtmlNode>::empty());
    match &n.kind {
        HtmlKind::Text(t) => {
            out.append(t.as_str());
        },
        _ => {},
    }
    assert(out@ =~= Seq::<char>::empty() + (match n.kind {
        HtmlKind::Text(t) => t@,
        _ => Seq::empty(),
    }));
    text_into(&n.children, &mut out);
    let ghost one = seq![*n];
    assert(one[one.len() - 1] == *n);
    assert(texts_in(one.drop_last()) == Seq::<char>::empty());
    assert(text_of(*n) == texts_in(one.drop_last()) + (match n.kind {
        HtmlKind::Text(t) => t@,
        _ => Seq::empty(),
    }) + texts_in(n.children@));
    assert(out@ =~= text_of(*n));
    out
}

} // verus!

verus! {

/// A row of a table of the page: its whole text, the text of its first link
/// if it has one, and the text of each of its cells.
#[derive(Debug, Clone, PartialEq, Eq)]
pub struct Row {
    pub text: String,
    pub link: Option<String>,
    pub cells: Vec<String>,
}

/// What the summary reads from the page: the title of the master, the text
/// of its version, and the rows of each table body. The title is the first
/// `h3` found by looking up `div` three times and then `h3` from the body;
/// since a lookup from a node matches that node itself first, the three
/// `div` lookups all stay on the first `div` of the body. The version is the
/// `span` of the first link of the title.
#[derive(Debug, Clone, PartialEq, Eq)]
pub struct RawPage {
    pub title: String,
    pub version: String,
    pub tables: Vec<Vec<Row>>,
}

/// A part of the page that is missing.
#[derive(Debug, Clone, PartialEq, Eq)]
pub enum PageError {
    /// No element with this name where one was looked for.
    MissingTag(String),
}

/// A row as plain text: its text, its link's text, its cells' texts.
pub open spec fn row_view(r: Row) -> (Seq<char>, Option<Seq<char>>, Seq<Seq<char>>) {
    (r.text@, match r.link {
        Some(l) => Some(l@),
        None => None,
    }, views(r.cells@))
}

/// What is read of a table row `tr`: its text, the text of its first `a`,
/// and the text of each `td`.
pub open spec fn row_of(tr: HtmlNode) -> (Seq<char>, Option<Seq<char>>, Seq<Seq<char>>) {
    (text_of(tr), match first_found(tr, "a"@) {
        Some(a) => Some(text_of(a)),
        None => None,
    }, found_all(tr, "td"@).map_values(|c: HtmlNode| text_of(c)))
}

/// What is read of a table body: each of its `tr` rows.
pub open spec fn table_of(tb: HtmlNode) -> Seq<(Seq<char>, Option<Seq<char>>, Seq<Seq<char>>)> {
    found_all(tb, "tr"@).map_values(|tr: HtmlNode| row_of(tr))
}

/// A page as plain text: title, version, and the rows of each table.
pub open spec fn page_view(p: RawPage) -> (Seq<char>, Seq<char>, Seq<Seq<(Seq<char>, Option<Seq<char>>, Seq<Seq<char>>)>>) {
    (p.title@, p.version@, p.tables@.map_values(|t: Vec<Row>| t@.map_values(|r: Row| row_view(r))))
}

/// What is read of the document `doc`: the first `body`; from it the chain
/// `div`, `div`, `div`, `h3` gives the title and from that `a`, `span` the
/// version; and each `tbody` under the body is a table. The first name not
/// found is the error.
pub open spec fn page_of(doc: HtmlNode) -> Result<(Seq<char>, Seq<char>, Seq<Seq<(Seq<char>, Option<Seq<char>>, Seq<Seq<char>>)>>), Seq<char>> {
    match first_found(doc, "body"@) {
        None => Err("body"@),
        Some(body) => match chain(body, seq!["div"@, "div"@, "div"@, "h3"@]) {
            Err(t) => Err(t),
            Ok(h3) => match chain(h3, seq!["a"@, "span"@]) {
                Err(t) => Err(t),
                Ok(span) => Ok((text_of(h3), text_of(span), found_all(body, "tbody"@).map_values(|tb: HtmlNode| table_of(tb)))),
            },
        },
    }
}

/// The first element of each name in turn, each under the one before (an
/// empty chain gives `start`); fails with the first name not found.
fn find_chain<'a>(start: &'a HtmlNode, tags: &Vec<&str>) -> (r: Result<&'a HtmlNode, PageError>)
    ensures
        match (r, chain(*start, tags@.map_values(|t: &str| t@))) {
            (Ok(n), Ok(m)) => *n == m,
            (Err(PageError::MissingTag(t)), Err(u)) => t@ == u,
            _ => false,
        },
{
    let ghost ts = tags@.map_values(|t: &str| t@);
    let mut cur: &HtmlNode = start;
    let mut i: usize = 0;
    while i < tags.len()
        invariant
            i <= tags.len(),
            ts == tags@.map_values(|t: &str| t@),
            chain(*start, ts.take(i as int)) == Ok::<HtmlNode, Seq<char>>(*cur),
        decreases tags.len() - i,
    {
        assert(ts.take(i + 1).drop_last() =~= ts.take(i as int));
        assert(ts.take(i + 1).last() == tags@[i as int]@);
        match find(cur, tags[i]) {
            Some(n) => {
                cur = n;
            },
            None => {
                let t = String::from_str(tags[i]);
                proof {
                    lemma_chain_stops(*start, ts, i as int + 1);
                }
                return Err(PageError::MissingTag(t));
            },
        }
        i = i + 1;
    }
    assert(ts.take(tags.len() as int) =~= ts);
    Ok(cur)
}

/// A chain that fails on a prefix fails the same way on the whole.
proof fn lemma_chain_stops(n: HtmlNode, tags: Seq<Seq<char>>, k: int)
    requires
        0 <= k <= tags.len(),
        chain(n, tags.take(k)) is Err,
    ensures
        chain(n, tags) == chain(n, tags.take(k)),
    decreases tags.len() - k,
{
    if k < tags.len() {
        assert(tags.take(k + 1).drop_last() =~= tags.take(k));
        lemma_chain_stops(n, tags, k + 1);
    } else {
        assert(tags.take(k) =~= tags);
    }
}

/// The rows of a table body: for each `tr`, its text, the text of its first
/// link, and the texts of its cells.
fn read_rows(table: &HtmlNode) -> (rows: Vec<Row>)
    ensures
        rows@.map_values(|r: Row| row_view(r)) == table_of(*table),
{
    let trs = find_all(table, "tr");
    proof {
        reveal_strlit("tr");
        reveal_strlit("a");
        reveal_strlit("td");
    }
    let ghost want = table_of(*table);
    let mut rows: Vec<Row> = Vec::new();
    let mut i: usize = 0;
    while i < trs.len()
        invariant
            i <= trs.len(),
            derefs(trs@) == found_all(*table, "tr"@),
            want == table_of(*table),
            want.len() == trs@.len(),
            rows@.map_values(|r: Row| row_view(r)) == want.take(i as int),
        decreases trs.len() - i,
    {
        let tr: &HtmlNode = trs[i];
        assert(*tr == derefs(trs@)[i as int]);
        let link = match find(tr, "a") {
            Some(a) => Some(text(a)),
            None => None,
        };
        let tds = find_all(tr, "td");
        let mut cells: Vec<String> = Vec::new();
        let mut j: usize = 0;
        while j < tds.len()
            invariant
                j <= tds.len(),
                derefs(tds@) == found_all(*tr, "td"@),
                views(cells@) == derefs(tds@).take(j as int).map_values(|c: HtmlNode| text_of(c)),
            decreases tds.len() - j,
        {
            let ghost before = views(cells@);
            let c = text(tds[j]);
            assert(*tds@[j as int] == derefs(tds@)[j as int]);
            let ghost cv = c@;
            cells.push(c);
            assert(views(cells@) =~= before.push(cv));
            assert(derefs(tds@).take(j + 1) =~= derefs(tds@).take(j as int).push(derefs(tds@)[j as int]));
            assert(views(cells@) =~= derefs(tds@).take(j + 1).map_values(|c: HtmlNode| text_of(c)));
            j = j + 1;
        }
        assert(derefs(tds@).take(tds.len() as int) =~= derefs(tds@));
        let row = Row { text: text(tr), link, cells };
        assert(row_view(row) == row_of(*tr));
        assert(want[i as int] == row_of(*tr));
        let ghost before = rows@.map_values(|r: Row| row_view(r));
        let ghost rv = row_view(row);
        rows.push(row);
        assert(rows@.map_values(|r: Row| row_view(r)) =~= before.push(rv));
        assert(want.take(i + 1) =~= want.take(i as int).push(want[i as int]));
        assert(rows@.map_values(|r: Row| row_view(r)) =~= want.take(i + 1));
        i = i + 1;
    }
    assert(want.take(trs.len() as int) =~= want);
    rows
}

/// Reads the title, the version and the tables of the master's page (see
/// `page_of`); fails with the name of the first element that the page lacks
/// along the way.
pub fn read_page(html: &str) -> (r: Result<RawPage, PageError>)
    ensures
        match (r, page_of(html_tree(html@))) {
            (Ok(p), Ok(q)) => page_view(p) == q,
            (Err(PageError::MissingTag(t)), Err(u)) => t@ == u,
            _ => false,
        },
{
    let doc = parse_html(html);
    proof {
        reveal_strlit("body");
        reveal_strlit("div");
        reveal_strlit("h3");
        reveal_strlit("a");
        reveal_strlit("span");
        reveal_strlit("tbody");
    }
    let body = match find(&doc, "body") {
        Some(b) => b,
        None => return Err(PageError::MissingTag(String::from_str("body"))),
    };
    let title_path = vec!["div", "div", "div", "h3"];
    assert(title_path@.map_values(|t: &str| t@) =~= seq!["div"@, "div"@, "div"@, "h3"@]);
    let h3 = match find_chain(body, &title_path) {
        Ok(n) => n,
        Err(e) => {
            return Err(e);
        },
    };
    let version_path = vec!["a", "span"];
    assert(version_path@.map_values(|t: &str| t@) =~= seq!["a"@, "span"@]);
    let span = match find_chain(h3, &version_path) {
        Ok(n) => n,
        Err(e) => {
            return Err(e);
        },
    };
    let version = text(span);
    let title = text(h3);
    let bodies = find_all(body, "tbody");
    let ghost want = found_all(*body, "tbody"@).map_values(|tb: HtmlNode| table_of(tb));
    let mut tables: Vec<Vec<Row>> = Vec::new();
    let mut i: usize = 0;
    while i < bodies.len()
        invariant
            i <= bodies.len(),
            derefs(bodies@) == found_all(*body, "tbody"@),
            want == found_all(*body, "tbody"@).map_values(|tb: HtmlNode| table_of(tb)),
            tables@.map_values(|t: Vec<Row>| t@.map_values(|r: Row| row_view(r))) == want.take(i as int),
        decreases bodies.len() - i,
    {
        assert(*bodies@[i as int] == derefs(bodies@)[i as int]);
        let rows = read_rows(bodies[i]);
        let ghost before = tables@.map_values(|t: Vec<Row>| t@.map_values(|r: Row| row_view(r)));
        let ghost tv = rows@.map_values(|r: Row| row_view(r));
        assert(want[i as int] == table_of(*bodies@[i as int]));
        tables.push(rows);
        assert(tables@.map_values(|t: Vec<Row>| t@.map_values(|r: Row| row_view(r))) =~= before.push(tv));
        assert(want.take(i + 1) =~= want.take(i as int).push(want[i as int]));
        assert(tables@.map_values(|t: Vec<Row>| t@.map_values(|r: Row| row_view(r))) =~= want.take(i + 1));
        i = i + 1;
    }
    assert(want.take(bodies.len() as int) =~= want);
    let page = RawPage { title, version, tables };
    assert(page_view(page) == (text_of(*h3), text_of(*span), want));
    Ok(page)
}

} // verus!

verus! {

/// The `k`-th cell of a row, cleaned.
pub open spec fn cell(r: Row, k: int) -> Seq<char> {
    clean(r.cells@[k]@)
}

/// Whether a worker row says the worker is alive.
pub open spec fn is_alive(r: Row) -> bool {
    cell(r, 2) == "ALIVE"@
}

/// A cores cell (`<total> (<used> Used)`, cleaned): the total and the used
/// count, when both read as numbers.
pub open spec fn cores_text(c: Seq<char>) -> Option<(i32, i32)> {
    let w = split_char(c, ' ');
    if w.len() < 2 {
        None
    } else {
        let p = split_char(w[1], '(');
        if p.len() < 2 {
            None
        } else {
            match (parse_i32(w[0]), parse_i32(split_char(p[1], ' ')[0])) {
                (Some(t), Some(u)) => Some((t, u)),
                _ => None,
            }
        }
    }
}

/// The cores of a worker row.
pub open spec fn row_cores(r: Row) -> Option<(i32, i32)> {
    cores_text(cell(r, 3))
}

/// The words of a memory cell (cleaned), without its parentheses
/// (`<total> <unit> <used> <unit> Used`).
pub open spec fn memory_text(c: Seq<char>) -> Seq<Seq<char>> {
    split_char(replace(replace(c, "("@, Seq::empty()), ")"@, Seq::empty()), ' ')
}

/// The memory words of a worker row.
pub open spec fn row_memory(r: Row) -> Seq<Seq<char>> {
    memory_text(cell(r, 4))
}

/// The cores of the alive workers, in order.
pub open spec fn alive_cores(rows: Seq<Row>) -> Seq<(i32, i32)>
    decreases rows.len(),
{
    if rows.len() == 0 {
        Seq::empty()
    } else {
        let a = alive_cores(rows.drop_last());
        if is_alive(rows.last()) {
            a.push(row_cores(rows.last())->0)
        } else {
            a
        }
    }
}

/// The sum of the totals.
pub open spec fn total_sum(cs: Seq<(i32, i32)>) -> int
    decreases cs.len(),
{
    if cs.len() == 0 {
        0
    } else {
        total_sum(cs.drop_last()) + cs.last().0
    }
}

/// The sum of the used counts.
pub open spec fn used_sum(cs: Seq<(i32, i32)>) -> int
    decreases cs.len(),
{
    if cs.len() == 0 {
        0
    } else {
        used_sum(cs.drop_last()) + cs.last().1
    }
}

/// The number of alive workers.
pub open spec fn alive_count(rows: Seq<Row>) -> nat {
    alive_cores(rows).len()
}

/// The number of rows whose status (the cell at `k`) is `status`.
pub open spec fn status_count(rows: Seq<Row>, k: int, status: Seq<char>) -> nat
    decreases rows.len(),
{
    if rows.len() == 0 {
        0
    } else {
        status_count(rows.drop_last(), k, status) + if cell(rows.last(), k) == status {
            1nat
        } else {
            0nat
        }
    }
}

/// A worker row the summary can read.
pub open spec fn worker_row_ok(r: Row) -> bool {
    &&& r.cells@.len() >= 6
    &&& is_alive(r) ==> row_cores(r) is Some && row_memory(r).len() >= 4
}

/// An application row the summary can read: a link and `min_cells` cells.
pub open spec fn app_row_ok(r: Row, min_cells: int) -> bool {
    r.link is Some && r.cells@.len() >= min_cells
}

/// The page holds what the summary reads: a title with `at ` in it, three
/// tables (workers, running and completed applications) whose rows have
/// their cells, and core counts whose running sums stay within `i32`.
pub open spec fn page_ok(p: RawPage) -> bool {
    &&& second_piece(clean(p.title@), "at "@) is Some
    &&& p.tables@.len() >= 3
    &&& forall|k: int| 0 <= k < p.tables@[0]@.len() ==> worker_row_ok(#[trigger] p.tables@[0]@[k])
    &&& forall|k: int| 0 <= k < p.tables@[1]@.len() ==> app_row_ok(#[trigger] p.tables@[1]@[k], 9)
    &&& forall|k: int| 0 <= k < p.tables@[2]@.len() ==> app_row_ok(#[trigger] p.tables@[2]@[k], 8)
    &&& forall|k: int|
        0 <= k <= p.tables@[0]@.len() ==> i32::MIN <= #[trigger] total_sum(alive_cores(p.tables@[0]@.take(k)))
            <= i32::MAX
    &&& forall|k: int|
        0 <= k <= p.tables@[0]@.len() ==> i32::MIN <= #[trigger] used_sum(alive_cores(p.tables@[0]@.take(k)))
            <= i32::MAX
}

/// A name with what is shown of it.
#[derive(Debug, Clone, PartialEq, Eq)]
pub struct Entry {
    pub name: String,
    pub info: Vec<String>,
}

/// Index of the first entry named `name`, or -1.
pub open spec fn index_of_name(es: Seq<(Seq<char>, Seq<Seq<char>>)>, name: Seq<char>) -> int
    decreases es.len(),
{
    if es.len() == 0 {
        -1
    } else {
        let f = index_of_name(es.drop_last(), name);
        if f >= 0 {
            f
        } else if es.last().0 == name {
            es.len() - 1
        } else {
            -1
        }
    }
}

/// Entries keyed by name, in order of first appearance; a later value for a
/// name replaces the earlier one in place.
pub open spec fn upsert(es: Seq<(Seq<char>, Seq<Seq<char>>)>, name: Seq<char>, info: Seq<Seq<char>>) -> Seq<(Seq<char>, Seq<Seq<char>>)> {
    let i = index_of_name(es, name);
    if i >= 0 {
        es.update(i, (name, info))
    } else {
        es.push((name, info))
    }
}

/// The views of entries.
pub open spec fn entry_views(es: Seq<Entry>) -> Seq<(Seq<char>, Seq<Seq<char>>)> {
    es.map_values(|e: Entry| (e.name@, views(e.info@)))
}

/// The workers: each name (the cleaned text of its row) with its status.
pub open spec fn worker_entries(rows: Seq<Row>) -> Seq<(Seq<char>, Seq<Seq<char>>)>
    decreases rows.len(),
{
    if rows.len() == 0 {
        Seq::empty()
    } else {
        let r = rows.last();
        upsert(worker_entries(rows.drop_last()), clean(r.text@), seq![cell(r, 2)])
    }
}

/// The running applications: each name (the cleaned text of its link) with
/// its user, cores and memory.
pub open spec fn app_entries(rows: Seq<Row>) -> Seq<(Seq<char>, Seq<Seq<char>>)>
    decreases rows.len(),
{
    if rows.len() == 0 {
        Seq::empty()
    } else {
        let r = rows.last();
        upsert(app_entries(rows.drop_last()), clean(r.link->0@), seq![cell(r, 6), cell(r, 2), cell(r, 3)])
    }
}

/// The summary of the master's page.
#[derive(Debug, Clone, PartialEq, Eq)]
pub struct Summary {
    pub version: String,
    pub url: String,
    pub alive_workers: usize,
    pub cores_used: i32,
    pub cores_total: i32,
    /// For each alive worker, the words of its memory cell.
    pub memory: Vec<Vec<String>>,
    pub running: usize,
    pub completed: usize,
    /// Each worker with its status.
    pub workers: Vec<Entry>,
    /// Each running application with its user, cores and memory.
    pub apps: Vec<Entry>,
}

/// The memory words of the alive workers, in order.
pub open spec fn alive_memory(rows: Seq<Row>) -> Seq<Seq<Seq<char>>>
    decreases rows.len(),
{
    if rows.len() == 0 {
        Seq::empty()
    } else {
        let a = alive_memory(rows.drop_last());
        if is_alive(rows.last()) {
            a.push(row_memory(rows.last()))
        } else {
            a
        }
    }
}

} // verus!

verus! {

/// Reads a cores cell.
pub fn cores_exec(c: &str) -> (r: Option<(i32, i32)>)
    ensures
        r == cores_text(c@),
{
    let w = split_char_exec(c, ' ');
    if w.len() < 2 {
        return None;
    }
    let p = split_char_exec(w[1].as_str(), '(');
    if p.len() < 2 {
        return None;
    }
    let q = split_char_exec(p[1].as_str(), ' ');
    proof {
        crate::text::lemma_split_char_len(p@[1]@, ' ');
    }
    match (parse_i32_exec(w[0].as_str()), parse_i32_exec(q[0].as_str())) {
        (Some(t), Some(u)) => Some((t, u)),
        _ => None,
    }
}

/// Reads a memory cell.
pub fn memory_exec(c: &str) -> (r: Vec<String>)
    ensures
        views(r@) == memory_text(c@),
{
    proof {
        reveal_strlit("(");
        reveal_strlit(")");
        reveal_strlit("");
        assert(""@ =~= Seq::<char>::empty());
    }
    let a = replace_exec(c, "(", "");
    let b = replace_exec(a.as_str(), ")", "");
    split_char_exec(b.as_str(), ' ')
}

proof fn lemma_index_of_name(es: Seq<(Seq<char>, Seq<Seq<char>>)>, name: Seq<char>)
    ensures
        -1 <= index_of_name(es, name) < es.len(),
        index_of_name(es, name) >= 0 ==> es[index_of_name(es, name)].0 == name,
        index_of_name(es, name) < 0 ==> forall|k: int| 0 <= k < es.len() ==> es[k].0 != name,
        forall|k: int| 0 <= k < index_of_name(es, name) ==> es[k].0 != name,
    decreases es.len(),
{
    if es.len() > 0 {
        lemma_index_of_name(es.drop_last(), name);
        assert forall|k: int| 0 <= k < es.len() - 1 implies es[k] == es.drop_last()[k] by {}
    }
}

/// Whether no name occurs twice among the entries.
pub open spec fn names_unique(es: Seq<(Seq<char>, Seq<Seq<char>>)>) -> bool {
    forall|i: int, j: int| 0 <= i < j < es.len() ==> #[trigger] es[i].0 != #[trigger] es[j].0
}

/// Setting an entry keeps the names unique.
proof fn lemma_upsert_unique(es: Seq<(Seq<char>, Seq<Seq<char>>)>, name: Seq<char>, info: Seq<Seq<char>>)
    requires
        names_unique(es),
    ensures
        names_unique(upsert(es, name, info)),
{
    lemma_index_of_name(es, name);
    let u = upsert(es, name, info);
    assert forall|i: int, j: int| 0 <= i < j < u.len() implies #[trigger] u[i].0 != #[trigger] u[j].0 by {
        if index_of_name(es, name) < 0 {
            if j == es.len() {
                assert(u[i] == es[i]);
            } else {
                assert(u[i] == es[i] && u[j] == es[j]);
            }
        }
    }
}

/// Each worker name occurs once in the workers that are read: a later row
/// with the same name replaces the earlier one.
pub proof fn lemma_worker_names_unique(rows: Seq<Row>)
    ensures
        names_unique(worker_entries(rows)),
    decreases rows.len(),
{
    if rows.len() > 0 {
        lemma_worker_names_unique(rows.drop_last());
        let r = rows.last();
        lemma_upsert_unique(worker_entries(rows.drop_last()), clean(r.text@), seq![cell(r, 2)]);
    }
}

/// Each application name occurs once in the applications that are read: a
/// later row with the same name replaces the earlier one.
pub proof fn lemma_app_names_unique(rows: Seq<Row>)
    ensures
        names_unique(app_entries(rows)),
    decreases rows.len(),
{
    if rows.len() > 0 {
        lemma_app_names_unique(rows.drop_last());
        let r = rows.last();
        lemma_upsert_unique(app_entries(rows.drop_last()), clean(r.link->0@), seq![cell(r, 6), cell(r, 2), cell(r, 3)]);
    }
}

/// Sets the entry named `name` to `info`, adding it last if there is none.
pub fn upsert_exec(es: &mut Vec<Entry>, name: String, info: Vec<String>)
    ensures
        entry_views(final(es)@) == upsert(entry_views(old(es)@), name@, views(info@)),
{
    let ghost ev = entry_views(es@);
    let ghost orig = es@;
    let mut i: usize = 0;
    while i < es.len()
        invariant
            i <= es.len(),
            es@ == orig,
            orig == old(es)@,
            ev == entry_views(es@),
            forall|k: int| 0 <= k < i ==> ev[k].0 != name@,
        decreases es.len() - i,
    {
        if str_eq(es[i].name.as_str(), name.as_str()) {
            assert(ev[i as int].0 == name@);
            proof {
                lemma_index_of_name(ev, name@);
            }
            assert(index_of_name(ev, name@) == i) by {
                if index_of_name(ev, name@) < i {
                    assert(ev[index_of_name(ev, name@)].0 == name@);
                }
            }
            let ghost nv = (name@, views(info@));
            es.set(i, Entry { name, info });
            assert(entry_views(es@) =~= ev.update(i as int, nv));
            assert(upsert(ev, name@, views(info@)) == ev.update(i as int, nv));
            assert(ev == entry_views(old(es)@));
            return;
        }
        i = i + 1;
    }
    let ghost nv = (name@, views(info@));
    proof {
        lemma_index_of_name(ev, name@);
    }
    es.push(Entry { name, info });
    assert(entry_views(es@) =~= ev.push(nv));
}

} // verus!

verus! {

/// The views of a sequence of string vectors.
pub open spec fn nested_views(v: Seq<Vec<String>>) -> Seq<Seq<Seq<char>>> {
    v.map_values(|w: Vec<String>| views(w@))
}

proof fn lemma_alive_cores_len(rows: Seq<Row>)
    ensures
        alive_cores(rows).len() <= rows.len(),
    decreases rows.len(),
{
    if rows.len() > 0 {
        lemma_alive_cores_len(rows.drop_last());
    }
}

/// The summary of the worker table.
#[derive(Debug, Clone, PartialEq, Eq)]
pub struct WorkerSummary {
    pub alive: usize,
    pub cores_total: i32,
    pub cores_used: i32,
    pub memory: Vec<Vec<String>>,
    pub workers: Vec<Entry>,
}

/// Summarizes the worker table.
pub fn summarize_workers(rows: &Vec<Row>) -> (s: WorkerSummary)
    requires
        forall|k: int| 0 <= k < rows@.len() ==> worker_row_ok(#[trigger] rows@[k]),
        forall|k: int| 0 <= k <= rows@.len() ==> i32::MIN <= #[trigger] total_sum(alive_cores(rows@.take(k))) <= i32::MAX,
        forall|k: int| 0 <= k <= rows@.len() ==> i32::MIN <= #[trigger] used_sum(alive_cores(rows@.take(k))) <= i32::MAX,
    ensures
        s.alive == alive_count(rows@),
        s.cores_total == total_sum(alive_cores(rows@)),
        s.cores_used == used_sum(alive_cores(rows@)),
        nested_views(s.memory@) == alive_memory(rows@),
        entry_views(s.workers@) == worker_entries(rows@),
{
    let mut alive: usize = 0;
    let mut total: i32 = 0;
    let mut used: i32 = 0;
    let mut memory: Vec<Vec<String>> = Vec::new();
    let mut workers: Vec<Entry> = Vec::new();
    let mut i: usize = 0;
    assert(rows@.take(0) =~= Seq::<Row>::empty());
    assert(nested_views(memory@) =~= Seq::empty());
    assert(entry_views(workers@) =~= Seq::empty());
    while i < rows.len()
        invariant
            i <= rows.len(),
            forall|k: int| 0 <= k < rows@.len() ==> worker_row_ok(#[trigger] rows@[k]),
            forall|k: int| 0 <= k <= rows@.len() ==> i32::MIN <= #[trigger] total_sum(alive_cores(rows@.take(k))) <= i32::MAX,
            forall|k: int| 0 <= k <= rows@.len() ==> i32::MIN <= #[trigger] used_sum(alive_cores(rows@.take(k))) <= i32::MAX,
            alive == alive_count(rows@.take(i as int)),
            total == total_sum(alive_cores(rows@.take(i as int))),
            used == used_sum(alive_cores(rows@.take(i as int))),
            nested_views(memory@) == alive_memory(rows@.take(i as int)),
            entry_views(workers@) == worker_entries(rows@.take(i as int)),
        decreases rows.len() - i,
    {
        let ghost pre = rows@.take(i as int);
        let ghost post = rows@.take(i + 1);
        assert(post.drop_last() =~= pre);
        assert(post.last() == rows@[i as int]);
        let row = &rows[i];
        assert(worker_row_ok(rows@[i as int]));
        proof {
            lemma_alive_cores_len(pre);
        }
        let status = clean_exec(row.cells[2].as_str());
        if str_eq(status.as_str(), "ALIVE") {
            let cores = clean_exec(row.cells[3].as_str());
            let (t, u) = match cores_exec(cores.as_str()) {
                Some(p) => p,
                None => {
                    assert(false);
                    (0, 0)
                },
            };
            assert(is_alive(post.last()));
            assert(row_cores(post.last()) == Some((t, u)));
            let ghost ac = alive_cores(pre);
            assert(alive_cores(post) == ac.push((t, u)));
            assert(ac.push((t, u)).drop_last() =~= ac);
            assert(total_sum(alive_cores(post)) == total + t);
            assert(used_sum(alive_cores(post)) == used + u);
            assert(i32::MIN <= total_sum(alive_cores(rows@.take(i + 1))) <= i32::MAX);
            assert(i32::MIN <= used_sum(alive_cores(rows@.take(i + 1))) <= i32::MAX);
            total = total + t;
            used = used + u;
            alive = alive + 1;
            let mem = clean_exec(row.cells[4].as_str());
            let words = memory_exec(mem.as_str());
            let ghost before = nested_views(memory@);
            let ghost wv = views(words@);
            memory.push(words);
            assert(nested_views(memory@) =~= before.push(wv));
        }
        let name = clean_exec(row.text.as_str());
        let info = vec![status];
        assert(views(info@) =~= seq![cell(rows@[i as int], 2)]);
        upsert_exec(&mut workers, name, info);
        i = i + 1;
    }
    assert(rows@.take(rows.len() as int) =~= rows@);
    WorkerSummary { alive, cores_total: total, cores_used: used, memory, workers }
}

/// Counts the rows whose cell `k` reads `status`.
pub fn count_status(rows: &Vec<Row>, k: usize, status: &str) -> (n: usize)
    requires
        forall|j: int| 0 <= j < rows@.len() ==> (#[trigger] rows@[j]).cells@.len() > k,
    ensures
        n == status_count(rows@, k as int, status@),
{
    let mut n: usize = 0;
    let mut i: usize = 0;
    while i < rows.len()
        invariant
            i <= rows.len(),
            n <= i,
            forall|j: int| 0 <= j < rows@.len() ==> (#[trigger] rows@[j]).cells@.len() > k,
            n == status_count(rows@.take(i as int), k as int, status@),
        decreases rows.len() - i,
    {
        assert(rows@.take(i + 1).drop_last() =~= rows@.take(i as int));
        assert(rows@.take(i + 1).last() == rows@[i as int]);
        assert(rows@[i as int].cells@.len() > k);
        let c = clean_exec(rows[i].cells[k].as_str());
        if str_eq(c.as_str(), status) {
            n = n + 1;
        }
        i = i + 1;
    }
    assert(rows@.take(rows.len() as int) =~= rows@);
    n
}

/// The running applications, keyed by the text of their link.
pub fn summarize_apps(rows: &Vec<Row>) -> (es: Vec<Entry>)
    requires
        forall|j: int| 0 <= j < rows@.len() ==> app_row_ok(#[trigger] rows@[j], 9),
    ensures
        entry_views(es@) == app_entries(rows@),
{
    let mut es: Vec<Entry> = Vec::new();
    let mut i: usize = 0;
    assert(entry_views(es@) =~= Seq::empty());
    while i < rows.len()
        invariant
            i <= rows.len(),
            forall|j: int| 0 <= j < rows@.len() ==> app_row_ok(#[trigger] rows@[j], 9),
            entry_views(es@) == app_entries(rows@.take(i as int)),
        decreases rows.len() - i,
    {
        assert(rows@.take(i + 1).drop_last() =~= rows@.take(i as int));
        assert(rows@.take(i + 1).last() == rows@[i as int]);
        assert(app_row_ok(rows@[i as int], 9));
        let row = &rows[i];
        let name = match &row.link {
            Some(l) => clean_exec(l.as_str()),
            None => {
                assert(false);
                String::new()
            },
        };
        let info = vec![
            clean_exec(row.cells[6].as_str()),
            clean_exec(row.cells[2].as_str()),
            clean_exec(row.cells[3].as_str()),
        ];
        assert(views(info@) =~= seq![cell(rows@[i as int], 6), cell(rows@[i as int], 2), cell(rows@[i as int], 3)]);
        upsert_exec(&mut es, name, info);
        i = i + 1;
    }
    assert(rows@.take(rows.len() as int) =~= rows@);
    es
}

/// Summarizes the master's page: its version and URL, the alive workers
/// and their cores, the memory cells of the alive workers, the running and
/// completed applications, and what is listed of the workers and the
/// running applications.
pub fn summarize(page: &RawPage) -> (s: Summary)
    requires
        page_ok(*page),
    ensures
        s.version@ == clean(page.version@),
        second_piece(clean(page.title@), "at "@) == Some(s.url@),
        s.alive_workers == alive_count(page.tables@[0]@),
        s.cores_total == total_sum(alive_cores(page.tables@[0]@)),
        s.cores_used == used_sum(alive_cores(page.tables@[0]@)),
        nested_views(s.memory@) == alive_memory(page.tables@[0]@),
        s.running == status_count(page.tables@[1]@, 7, "RUNNING"@),
        s.completed == status_count(page.tables@[2]@, 7, "FINISHED"@),
        entry_views(s.workers@) == worker_entries(page.tables@[0]@),
        entry_views(s.apps@) == app_entries(page.tables@[1]@),
        names_unique(entry_views(s.workers@)),
        names_unique(entry_views(s.apps@)),
{
    proof {
        lemma_worker_names_unique(page.tables@[0]@);
        lemma_app_names_unique(page.tables@[1]@);
    }
    let version = clean_exec(page.version.as_str());
    let title = clean_exec(page.title.as_str());
    proof {
        reveal_strlit("at ");
    }
    let url = match second_piece_exec(title.as_str(), "at ") {
        Some(u) => u,
        None => {
            assert(false);
            String::new()
        },
    };
    let w = summarize_workers(&page.tables[0]);
    let running = count_status(&page.tables[1], 7, "RUNNING");
    let completed = count_status(&page.tables[2], 7, "FINISHED");
    let apps = summarize_apps(&page.tables[1]);
    Summary {
        version,
        url,
        alive_workers: w.alive,
        cores_used: w.cores_used,
        cores_total: w.cores_total,
        memory: w.memory,
        running,
        completed,
        workers: w.workers,
        apps,
    }
}

} // verus!

verus! {

/// The `k`-th item of an entry's info, or nothing.
pub open spec fn info_at(e: (Seq<char>, Seq<Seq<char>>), k: int) -> Seq<char> {
    if 0 <= k < e.1.len() {
        e.1[k]
    } else {
        Seq::empty()
    }
}

fn info_at_exec(e: &Entry, k: usize) -> (r: String)
    ensures
        r@ == info_at((e.name@, views(e.info@)), k as int),
{
    if k < e.info.len() {
        e.info[k].clone()
    } else {
        String::new()
    }
}

/// The names of the workers that are shown: all of them, or with
/// `alive_only` those whose status is `ALIVE`.
pub open spec fn shown_workers_spec(es: Seq<(Seq<char>, Seq<Seq<char>>)>, alive_only: bool) -> Seq<Seq<char>>
    decreases es.len(),
{
    if es.len() == 0 {
        Seq::empty()
    } else {
        let r = shown_workers_spec(es.drop_last(), alive_only);
        if !alive_only || info_at(es.last(), 0) == "ALIVE"@ {
            r.push(es.last().0)
        } else {
            r
        }
    }
}

/// The names of the workers to show.
pub fn shown_workers(workers: &Vec<Entry>, alive_only: bool) -> (r: Vec<String>)
    ensures
        views(r@) == shown_workers_spec(entry_views(workers@), alive_only),
{
    let ghost ev = entry_views(workers@);
    let mut out: Vec<String> = Vec::new();
    let mut i: usize = 0;
    while i < workers.len()
        invariant
            i <= workers.len(),
            ev == entry_views(workers@),
            views(out@) == shown_workers_spec(ev.take(i as int), alive_only),
        decreases workers.len() - i,
    {
        assert(ev.take(i + 1).drop_last() =~= ev.take(i as int));
        assert(ev.take(i + 1).last() == ev[i as int]);
        let status = info_at_exec(&workers[i], 0);
        if !alive_only || str_eq(status.as_str(), "ALIVE") {
            let ghost before = views(out@);
            out.push(workers[i].name.clone());
            assert(views(out@) =~= before.push(ev[i as int].0));
        }
        i = i + 1;
    }
    assert(ev.take(workers.len() as int) =~= ev);
    out
}

/// The line shown for a running application.
pub open spec fn app_line(e: (Seq<char>, Seq<Seq<char>>)) -> Seq<char> {
    info_at(e, 0) + "@"@ + e.0 + " allocated "@ + info_at(e, 1) + " cores, "@ + info_at(e, 2) + " memory"@
}

/// The lines shown for the running applications: `<user>@<name> allocated
/// <cores> cores, <memory> memory`.
pub fn app_lines(apps: &Vec<Entry>) -> (r: Vec<String>)
    ensures
        views(r@) == entry_views(apps@).map_values(|e: (Seq<char>, Seq<Seq<char>>)| app_line(e)),
{
    let ghost ev = entry_views(apps@);
    let mut out: Vec<String> = Vec::new();
    let mut i: usize = 0;
    while i < apps.len()
        invariant
            i <= apps.len(),
            ev == entry_views(apps@),
            views(out@) == ev.take(i as int).map_values(|e: (Seq<char>, Seq<Seq<char>>)| app_line(e)),
        decreases apps.len() - i,
    {
        let e = &apps[i];
        let mut l = info_at_exec(e, 0);
        l.append("@");
        l.append(e.name.as_str());
        l.append(" allocated ");
        l.append(info_at_exec(e, 1).as_str());
        l.append(" cores, ");
        l.append(info_at_exec(e, 2).as_str());
        l.append(" memory");
        let ghost before = views(out@);
        assert(l@ == app_line(ev[i as int]));
        let ghost lv = l@;
        out.push(l);
        assert(views(out@) =~= before.push(lv));
        assert(ev.take(i + 1) =~= ev.take(i as int).push(ev[i as int]));
        assert(views(out@) =~= ev.take(i + 1).map_values(|e: (Seq<char>, Seq<Seq<char>>)| app_line(e)));
        i = i + 1;
    }
    assert(ev.take(apps.len() as int) =~= ev);
    out
}

} // verus!

verus! {

/// Whether a worker row can be read.
fn worker_row_readable(r: &Row) -> (b: bool)
    ensures
        b == worker_row_ok(*r),
{
    if r.cells.len() < 6 {
        return false;
    }
    let status = clean_exec(r.cells[2].as_str());
    if !str_eq(status.as_str(), "ALIVE") {
        return true;
    }
    let cores = clean_exec(r.cells[3].as_str());
    let mem = clean_exec(r.cells[4].as_str());
    cores_exec(cores.as_str()).is_some() && memory_exec(mem.as_str()).len() >= 4
}

/// Whether every row of a table is an application row with `min_cells` cells.
fn app_rows_readable(rows: &Vec<Row>, min_cells: usize) -> (b: bool)
    ensures
        b == (forall|k: int| 0 <= k < rows@.len() ==> app_row_ok(#[trigger] rows@[k], min_cells as int)),
{
    let mut i: usize = 0;
    while i < rows.len()
        invariant
            i <= rows.len(),
            forall|k: int| 0 <= k < i ==> app_row_ok(#[trigger] rows@[k], min_cells as int),
        decreases rows.len() - i,
    {
        if rows[i].link.is_none() || rows[i].cells.len() < min_cells {
            assert(!app_row_ok(rows@[i as int], min_cells as int));
            return false;
        }
        i = i + 1;
    }
    true
}

/// Whether the worker table can be read and its core counts add up within
/// `i32`.
fn worker_rows_readable(rows: &Vec<Row>) -> (b: bool)
    ensures
        b == ((forall|k: int| 0 <= k < rows@.len() ==> worker_row_ok(#[trigger] rows@[k])) && (forall|k: int|
            0 <= k <= rows@.len() ==> i32::MIN <= #[trigger] total_sum(alive_cores(rows@.take(k))) <= i32::MAX)
            && (forall|k: int|
            0 <= k <= rows@.len() ==> i32::MIN <= #[trigger] used_sum(alive_cores(rows@.take(k))) <= i32::MAX)),
{
    let mut total: i64 = 0;
    let mut used: i64 = 0;
    let mut i: usize = 0;
    assert(rows@.take(0) =~= Seq::<Row>::empty());
    while i < rows.len()
        invariant
            i <= rows.len(),
            forall|k: int| 0 <= k < i ==> worker_row_ok(#[trigger] rows@[k]),
            forall|k: int| 0 <= k <= i ==> i32::MIN <= #[trigger] total_sum(alive_cores(rows@.take(k))) <= i32::MAX,
            forall|k: int| 0 <= k <= i ==> i32::MIN <= #[trigger] used_sum(alive_cores(rows@.take(k))) <= i32::MAX,
            total == total_sum(alive_cores(rows@.take(i as int))),
            used == used_sum(alive_cores(rows@.take(i as int))),
        decreases rows.len() - i,
    {
        let ghost pre = rows@.take(i as int);
        let ghost post = rows@.take(i + 1);
        assert(post.drop_last() =~= pre);
        assert(post.last() == rows@[i as int]);
        let row = &rows[i];
        if !worker_row_readable(row) {
            return false;
        }
        let status = clean_exec(row.cells[2].as_str());
        if str_eq(status.as_str(), "ALIVE") {
            let cores = clean_exec(row.cells[3].as_str());
            let (t, u) = match cores_exec(cores.as_str()) {
                Some(p) => p,
                None => {
                    assert(false);
                    (0, 0)
                },
            };
            let ghost ac = alive_cores(pre);
            assert(alive_cores(post) == ac.push((t, u)));
            assert(ac.push((t, u)).drop_last() =~= ac);
            let nt = total + t as i64;
            let nu = used + u as i64;
            if nt < -2147483648 || nt > 2147483647 || nu < -2147483648 || nu > 2147483647 {
                assert(total_sum(alive_cores(rows@.take(i + 1))) == nt);
                assert(used_sum(alive_cores(rows@.take(i + 1))) == nu);
                return false;
            }
            total = nt;
            used = nu;
        } else {
            assert(alive_cores(post) == alive_cores(pre));
        }
        i = i + 1;
    }
    true
}

/// Whether the summary can read the page (see `page_ok`).
pub fn page_is_readable(page: &RawPage) -> (b: bool)
    ensures
        b == page_ok(*page),
{
    let title = clean_exec(page.title.as_str());
    proof {
        reveal_strlit("at ");
    }
    if second_piece_exec(title.as_str(), "at ").is_none() {
        return false;
    }
    if page.tables.len() < 3 {
        return false;
    }
    worker_rows_readable(&page.tables[0]) && app_rows_readable(&page.tables[1], 9) && app_rows_readable(
        &page.tables[2],
        8,
    )
}

} // verus!

verus! {

/// A cores cell written `<t> (<u> Used)` in decimal reads as `(t, u)`, for
/// every total and used count that is not negative: the whole numbers are
/// read, not a part of them.
pub proof fn lemma_cores_cell(t: i32, u: i32)
    requires
        t >= 0,
        u >= 0,
    ensures
        cores_text(decimal(t as nat) + " ("@ + decimal(u as nat) + " Used)"@) == Some((t, u)),
{
    reveal_strlit(" (");
    reveal_strlit(" Used)");
    let dt = decimal(t as nat);
    let du = decimal(u as nat);
    lemma_decimal(t as nat);
    lemma_decimal(u as nat);
    lemma_parse_decimal(t);
    lemma_parse_decimal(u);
    let sp = seq![' '];
    let b = seq!['('] + du;
    let c = seq!['U', 's', 'e', 'd', ')'];
    let xs = seq![dt, b, c];
    assert(xs.drop_last() =~= seq![dt, b]);
    assert(seq![dt, b].drop_last() =~= seq![dt]);
    assert(join(seq![dt], sp) == dt);
    assert(join(seq![dt, b], sp) == dt + sp + b);
    assert(join(xs, sp) == dt + sp + b + sp + c);
    let s = dt + " ("@ + du + " Used)"@;
    assert(s =~= join(xs, sp));
    assert(!dt.contains(' ')) by {
        if dt.contains(' ') {
            let k = choose|k: int| 0 <= k < dt.len() && dt[k] == ' ';
            assert(crate::text::is_digit(dt[k]));
        }
    }
    assert(!b.contains(' ')) by {
        if b.contains(' ') {
            let k = choose|k: int| 0 <= k < b.len() && b[k] == ' ';
            assert(k > 0);
            assert(b[k] == du[k - 1]);
            assert(crate::text::is_digit(du[k - 1]));
        }
    }
    assert(!c.contains(' ')) by {
        if c.contains(' ') {
            let k = choose|k: int| 0 <= k < c.len() && c[k] == ' ';
        }
    }
    assert(forall|k: int| 0 <= k < xs.len() ==> !(#[trigger] xs[k]).contains(' ')) by {
        assert forall|k: int| 0 <= k < xs.len() implies !(#[trigger] xs[k]).contains(' ') by {
            if k == 0 {
                assert(xs[0] == dt);
            } else if k == 1 {
                assert(xs[1] == b);
            } else {
                assert(xs[2] == c);
            }
        }
    }
    lemma_split_join(xs, ' ');
    let ys = seq![Seq::<char>::empty(), du];
    assert(ys.drop_last() =~= seq![Seq::<char>::empty()]);
    assert(join(seq![Seq::<char>::empty()], seq!['(']) == Seq::<char>::empty());
    assert(b =~= join(ys, seq!['(']));
    assert(!du.contains('(')) by {
        if du.contains('(') {
            let k = choose|k: int| 0 <= k < du.len() && du[k] == '(';
            assert(crate::text::is_digit(du[k]));
        }
    }
    assert(forall|k: int| 0 <= k < ys.len() ==> !(#[trigger] ys[k]).contains('(')) by {
        assert forall|k: int| 0 <= k < ys.len() implies !(#[trigger] ys[k]).contains('(') by {
            if k == 1 {
                assert(ys[1] == du);
            }
        }
    }
    lemma_split_join(ys, '(');
    assert(!du.contains(' ')) by {
        if du.contains(' ') {
            let k = choose|k: int| 0 <= k < du.len() && du[k] == ' ';
            assert(crate::text::is_digit(du[k]));
        }
    }
    assert(join(seq![du], sp) == du);
    assert(forall|k: int| 0 <= k < seq![du].len() ==> !(#[trigger] seq![du][k]).contains(' '));
    lemma_split_join(seq![du], ' ');
    assert(split_char(s, ' ') == xs);
    assert(split_char(s, ' ')[1] == b);
    assert(split_char(b, '(') == ys);
    assert(split_char(du, ' ') == seq![du]);
}

} // verus!

verus! {

/// Whether a row's cleaned status cell is exactly `ALIVE`.
pub open spec fn says_alive(r: Row) -> bool {
    clean(r.cells@[2]@) == "ALIVE"@
}

/// Only the rows whose cleaned status cell is exactly `ALIVE` count as alive
/// workers: the alive count is their number, and the core counts and the
/// memory words summed are those of these rows, in order.
pub proof fn lemma_alive_rows(rows: Seq<Row>)
    ensures
        alive_count(rows) == rows.filter(|r: Row| says_alive(r)).len(),
        alive_cores(rows) == rows.filter(|r: Row| says_alive(r)).map_values(
            |r: Row| cores_text(clean(r.cells@[3]@))->0,
        ),
        alive_memory(rows) == rows.filter(|r: Row| says_alive(r)).map_values(
            |r: Row| memory_text(clean(r.cells@[4]@)),
        ),
    decreases rows.len(),
{
    reveal(Seq::filter);
    if rows.len() > 0 {
        let init = rows.drop_last();
        lemma_alive_rows(init);
        let f = init.filter(|r: Row| says_alive(r));
        assert(rows.filter(|r: Row| says_alive(r)) == if says_alive(rows.last()) {
            f.push(rows.last())
        } else {
            f
        });
        if says_alive(rows.last()) {
            assert(f.push(rows.last()).map_values(|r: Row| cores_text(clean(r.cells@[3]@))->0) =~= f.map_values(
                |r: Row| cores_text(clean(r.cells@[3]@))->0,
            ).push(cores_text(clean(rows.last().cells@[3]@))->0));
            assert(f.push(rows.last()).map_values(|r: Row| memory_text(clean(r.cells@[4]@))) =~= f.map_values(
                |r: Row| memory_text(clean(r.cells@[4]@)),
            ).push(memory_text(clean(rows.last().cells@[4]@))));
        }
    }
}

} // verus!
