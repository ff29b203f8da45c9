//! The page model: an ordered sequence of nodes, of which category tags and
//! templates are the ones that the rewrite rules read and change.
//!
//! A template parameter may carry `parsed`, the index (in a list of
//! sub-documents kept beside the page) of the document that its value parses
//! to; `None` where the value was not parsed or could not be. The recursive
//! descent sets `rewritten` on a parameter whose sub-document it changed:
//! the index of the rewritten sub-document among those it returns. Such a
//! value is then to be replaced by that document's serialization.
//!
//! Category tags and templates carry `origin`, an identifier that the
//! caller gives the nodes it reads from a page; the rules keep it on the
//! nodes they keep or rewrite, and nodes they create have none.
use vstd::prelude::*;

verus! {

pub struct Param {
    pub key: String,
    pub value: String,
    pub parsed: Option<usize>,
    pub rewritten: Option<usize>,
}

pub struct ParamV {
    pub key: Seq<char>,
    pub value: Seq<char>,
    pub parsed: Option<usize>,
    pub rewritten: Option<usize>,
}

impl View for Param {
    type V = ParamV;

    open spec fn view(&self) -> ParamV {
        ParamV { key: self.key@, value: self.value@, parsed: self.parsed, rewritten: self.rewritten }
    }
}

pub struct Template {
    pub name: String,
    pub params: Vec<Param>,
    pub origin: Option<usize>,
}

pub struct TemplateV {
    pub name: Seq<char>,
    pub params: Seq<ParamV>,
    pub origin: Option<usize>,
}

impl View for Template {
    type V = TemplateV;

    open spec fn view(&self) -> TemplateV {
        TemplateV { name: self.name@, params: params_view(self.params@), origin: self.origin }
    }
}

pub struct CategoryTag {
    pub name: String,
    pub sort_key: Option<String>,
    pub origin: Option<usize>,
}

pub struct CategoryTagV {
    pub name: Seq<char>,
    pub sort_key: Option<Seq<char>>,
    pub origin: Option<usize>,
}

pub open spec fn opt_view(o: Option<String>) -> Option<Seq<char>> {
    match o {
        Some(s) => Some(s@),
        None => None,
    }
}

impl View for CategoryTag {
    type V = CategoryTagV;

    open spec fn view(&self) -> CategoryTagV {
        CategoryTagV { name: self.name@, sort_key: opt_view(self.sort_key), origin: self.origin }
    }
}

pub enum Node {
    Text(String),
    Link(String),
    Category(CategoryTag),
    Template(Template),
}

pub enum NodeV {
    Text(Seq<char>),
    Link(Seq<char>),
    Category(CategoryTagV),
    Template(TemplateV),
}

impl View for Node {
    type V = NodeV;

    open spec fn view(&self) -> NodeV {
        match self {
            Node::Text(t) => NodeV::Text(t@),
            Node::Link(t) => NodeV::Link(t@),
            Node::Category(c) => NodeV::Category(c@),
            Node::Template(t) => NodeV::Template(t@),
        }
    }
}

pub struct Document {
    pub nodes: Vec<Node>,
}

impl View for Document {
    type V = Seq<NodeV>;

    open spec fn view(&self) -> Seq<NodeV> {
        nodes_view(self.nodes@)
    }
}

pub open spec fn params_view(ps: Seq<Param>) -> Seq<ParamV> {
    ps.map_values(|p: Param| p@)
}

pub open spec fn nodes_view(ns: Seq<Node>) -> Seq<NodeV> {
    ns.map_values(|n: Node| n@)
}

pub proof fn lemma_params_push(ps: Seq<Param>, p: Param)
    ensures
        params_view(ps.push(p)) == params_view(ps).push(p@),
{
    assert(params_view(ps.push(p)) =~= params_view(ps).push(p@));
}

pub proof fn lemma_nodes_push(ns: Seq<Node>, n: Node)
    ensures
        nodes_view(ns.push(n)) == nodes_view(ns).push(n@),
{
    assert(nodes_view(ns.push(n)) =~= nodes_view(ns).push(n@));
}

pub proof fn lemma_nodes_insert(ns: Seq<Node>, i: int, n: Node)
    requires
        0 <= i <= ns.len(),
    ensures
        nodes_view(ns.insert(i, n)) == nodes_view(ns).insert(i, n@),
{
    assert(nodes_view(ns.insert(i, n)) =~= nodes_view(ns).insert(i, n@));
}

pub proof fn lemma_nodes_remove(ns: Seq<Node>, i: int)
    requires
        0 <= i < ns.len(),
    ensures
        nodes_view(ns.remove(i)) == nodes_view(ns).remove(i),
{
    assert(nodes_view(ns.remove(i)) =~= nodes_view(ns).remove(i));
}

pub fn copy_text(o: &Option<String>) -> (r: Option<String>)
    ensures
        opt_view(r) == opt_view(*o),
{
    match o {
        Some(s) => Some(s.clone()),
        None => None,
    }
}

impl Param {
    pub fn copy(&self) -> (r: Param)
        ensures
            r@ == self@,
    {
        Param { key: self.key.clone(), value: self.value.clone(), parsed: self.parsed, rewritten: self.rewritten }
    }
}

pub fn copy_params(ps: &Vec<Param>) -> (r: Vec<Param>)
    ensures
        params_view(r@) == params_view(ps@),
{
    let mut out: Vec<Param> = Vec::new();
    let mut k: usize = 0;
    while k < ps.len()
        invariant
            k <= ps.len(),
            params_view(out@) == params_view(ps@).take(k as int),
        decreases ps.len() - k,
    {
        let p = ps[k].copy();
        proof {
            lemma_params_push(out@, p);
        }
        out.push(p);
        assert(params_view(out@) =~= params_view(ps@).take(k + 1));
        k = k + 1;
    }
    assert(params_view(ps@).take(ps.len() as int) =~= params_view(ps@));
    out
}

impl Template {
    pub fn copy(&self) -> (r: Template)
        ensures
            r@ == self@,
    {
        Template { name: self.name.clone(), params: copy_params(&self.params), origin: self.origin }
    }
}

impl Node {
    pub fn copy(&self) -> (r: Node)
        ensures
            r@ == self@,
    {
        match self {
            Node::Text(t) => Node::Text(t.clone()),
            Node::Link(t) => Node::Link(t.clone()),
            Node::Category(c) => Node::Category(CategoryTag { name: c.name.clone(), sort_key: copy_text(&c.sort_key), origin: c.origin }),
            Node::Template(t) => Node::Template(t.copy()),
        }
    }
}

impl Document {
    pub fn copy(&self) -> (r: Document)
        ensures
            r@ == self@,
    {
        let mut out: Vec<Node> = Vec::new();
        let mut k: usize = 0;
        while k < self.nodes.len()
            invariant
                k <= self.nodes.len(),
                nodes_view(out@) == self@.take(k as int),
            decreases self.nodes.len() - k,
        {
            let n = self.nodes[k].copy();
            proof {
                lemma_nodes_push(out@, n);
            }
            out.push(n);
            assert(nodes_view(out@) =~= self@.take(k + 1));
            k = k + 1;
        }
        assert(self@.take(self.nodes.len() as int) =~= self@);
        Document { nodes: out }
    }
}

} // verus!
