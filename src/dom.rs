//! An in-memory host surface (a tree of element and text nodes) and the
//! fluent element builder over it.
//!
//! Event handlers and dynamic-text effects are named by ids: the embedding
//! application keeps the callables, the surface keeps which of them belong to
//! which element and event, and in which order they were registered.
use vstd::prelude::*;

verus! {

/// The mathematical state of one node.
pub struct NodeModel {
    pub is_text: bool,
    /// Element kind; empty for a text node.
    pub tag: Seq<char>,
    /// Text content; empty for an element.
    pub data: Seq<char>,
    /// The effect that rewrites this text node, if it is a dynamic one.
    pub binding: Option<usize>,
    /// Attributes as (name, value), names pairwise distinct.
    pub attrs: Seq<(Seq<char>, Seq<char>)>,
    /// Event listeners as (event name, handler id), in registration order.
    pub listeners: Seq<(Seq<char>, usize)>,
    /// Child node ids, in order.
    pub children: Seq<usize>,
    /// The node this one was appended to, if any.
    pub parent: Option<usize>,
}

pub open spec fn unique_names(a: Seq<(Seq<char>, Seq<char>)>) -> bool {
    forall|i: int, j: int| 0 <= i < j < a.len() ==> a[i].0 != a[j].0
}

pub open spec fn has_attr(a: Seq<(Seq<char>, Seq<char>)>, name: Seq<char>) -> bool {
    exists|i: int| 0 <= i < a.len() && a[i].0 == name
}

pub open spec fn attr_index(a: Seq<(Seq<char>, Seq<char>)>, name: Seq<char>) -> int {
    choose|i: int| 0 <= i < a.len() && a[i].0 == name
}

/// The value of attribute `name`, if it is set.
pub open spec fn attr_value(a: Seq<(Seq<char>, Seq<char>)>, name: Seq<char>) -> Option<Seq<char>> {
    if has_attr(a, name) {
        Some(a[attr_index(a, name)].1)
    } else {
        None
    }
}

/// The attributes after setting `name` to `value`: an existing entry is
/// overwritten in place, otherwise the pair is appended.
pub open spec fn with_attr(
    a: Seq<(Seq<char>, Seq<char>)>,
    name: Seq<char>,
    value: Seq<char>,
) -> Seq<(Seq<char>, Seq<char>)> {
    if has_attr(a, name) {
        a.update(attr_index(a, name), (name, value))
    } else {
        a.push((name, value))
    }
}

/// The handlers registered for `event`, in registration order.
pub open spec fn handlers_for(l: Seq<(Seq<char>, usize)>, event: Seq<char>) -> Seq<usize> {
    l.filter(on_event(event)).map_values(|p: (Seq<char>, usize)| p.1)
}

/// Whether a listener entry is for `event`.
pub open spec fn on_event(event: Seq<char>) -> spec_fn((Seq<char>, usize)) -> bool {
    |p: (Seq<char>, usize)| p.0 == event
}

pub open spec fn fresh_node(is_text: bool, tag: Seq<char>, data: Seq<char>, binding: Option<usize>) -> NodeModel {
    NodeModel {
        is_text,
        tag,
        data,
        binding,
        attrs: Seq::empty(),
        listeners: Seq::empty(),
        children: Seq::empty(),
        parent: None,
    }
}

proof fn lemma_with_attr(a: Seq<(Seq<char>, Seq<char>)>, name: Seq<char>, value: Seq<char>)
    requires
        unique_names(a),
    ensures
        unique_names(with_attr(a, name, value)),
        attr_value(with_attr(a, name, value), name) == Some(value),
{
    let b = with_attr(a, name, value);
    if has_attr(a, name) {
        let k = attr_index(a, name);
        assert(b[k].0 == name);
        assert(attr_index(b, name) == k);
    } else {
        assert(b[a.len() as int].0 == name);
        assert(attr_index(b, name) == a.len());
    }
}

/// Setting the same attribute twice leaves the second value, whatever the
/// attributes were before.
pub proof fn lemma_attr_overwrite(
    a: Seq<(Seq<char>, Seq<char>)>,
    name: Seq<char>,
    v1: Seq<char>,
    v2: Seq<char>,
)
    requires
        unique_names(a),
    ensures
        attr_value(with_attr(with_attr(a, name, v1), name, v2), name) == Some(v2),
{
    lemma_with_attr(a, name, v1);
    lemma_with_attr(with_attr(a, name, v1), name, v2);
}

/// Two handlers registered for one event run, in registration order, after
/// the handlers registered before them, on a single firing of that event.
pub proof fn lemma_listeners_accumulate(
    l: Seq<(Seq<char>, usize)>,
    event: Seq<char>,
    h1: usize,
    h2: usize,
)
    ensures
        handlers_for(l.push((event, h1)).push((event, h2)), event) == handlers_for(l, event)
            + seq![h1, h2],
{
    let pred = on_event(event);
    let f = |p: (Seq<char>, usize)| p.1;
    l.lemma_filter_push((event, h1), pred);
    l.push((event, h1)).lemma_filter_push((event, h2), pred);
    let base = l.filter(pred);
    assert(base.push((event, h1)).push((event, h2)).map_values(f)
        =~= base.map_values(f) + seq![h1, h2]);
}

/// The mathematical state of a [`Surface`].
pub struct SurfaceModel {
    pub nodes: Seq<NodeModel>,
}

impl SurfaceModel {
    pub open spec fn wf(self) -> bool {
        forall|i: int| 0 <= i < self.nodes.len() ==> unique_names(#[trigger] self.nodes[i].attrs)
    }

    pub open spec fn is_element(self, n: usize) -> bool {
        n < self.nodes.len() && !self.nodes[n as int].is_text
    }

    pub open spec fn add(self, node: NodeModel) -> SurfaceModel {
        SurfaceModel { nodes: self.nodes.push(node) }
    }

    pub open spec fn set_node(self, n: usize, node: NodeModel) -> SurfaceModel {
        SurfaceModel { nodes: self.nodes.update(n as int, node) }
    }

    pub open spec fn set_attr(self, n: usize, name: Seq<char>, value: Seq<char>) -> SurfaceModel {
        let old_node = self.nodes[n as int];
        self.set_node(n, NodeModel { attrs: with_attr(old_node.attrs, name, value), ..old_node })
    }

    pub open spec fn add_listener(self, n: usize, event: Seq<char>, handler: usize) -> SurfaceModel {
        let old_node = self.nodes[n as int];
        self.set_node(n, NodeModel { listeners: old_node.listeners.push((event, handler)), ..old_node })
    }

    /// Every text node bound to `effect` now reads `data`.
    pub open spec fn refresh(self, effect: usize, data: Seq<char>) -> SurfaceModel {
        SurfaceModel {
            nodes: Seq::new(
                self.nodes.len(),
                |i: int|
                    if self.nodes[i].binding == Some(effect) {
                        NodeModel { data, ..self.nodes[i] }
                    } else {
                        self.nodes[i]
                    },
            ),
        }
    }

    /// `c` appended as the last child of `p`.
    pub open spec fn append(self, p: usize, c: usize) -> SurfaceModel {
        let pn = self.nodes[p as int];
        let cn = self.nodes[c as int];
        self.set_node(p, NodeModel { children: pn.children.push(c), ..pn }).set_node(
            c,
            NodeModel { parent: Some(p), ..cn },
        )
    }
}

/// A text node bound to `effect` keeps its content when any other effect's
/// text is refreshed: its initial text stays until its own effect re-runs.
pub proof fn lemma_bound_text_stable(m: SurfaceModel, n: usize, effect: usize, other: usize, data: Seq<char>)
    requires
        n < m.nodes.len(),
        m.nodes[n as int].binding == Some(effect),
        other != effect,
    ensures
        m.refresh(other, data).nodes[n as int] == m.nodes[n as int],
{
}

struct NodeData {
    is_text: bool,
    tag: String,
    data: String,
    binding: Option<usize>,
    attrs: Vec<(String, String)>,
    listeners: Vec<(String, usize)>,
    children: Vec<usize>,
    parent: Option<usize>,
}

impl View for NodeData {
    type V = NodeModel;

    closed spec fn view(&self) -> NodeModel {
        NodeModel {
            is_text: self.is_text,
            tag: self.tag@,
            data: self.data@,
            binding: self.binding,
            attrs: self.attrs@.map_values(|p: (String, String)| (p.0@, p.1@)),
            listeners: self.listeners@.map_values(|p: (String, usize)| (p.0@, p.1)),
            children: self.children@,
            parent: self.parent,
        }
    }
}

/// A tree of element and text nodes, addressed by node id.
pub struct Surface {
    nodes: Vec<NodeData>,
}

impl View for Surface {
    type V = SurfaceModel;

    closed spec fn view(&self) -> SurfaceModel {
        SurfaceModel { nodes: self.nodes@.map_values(|n: NodeData| n@) }
    }
}

fn find_attr(attrs: &Vec<(String, String)>, name: &String) -> (r: Option<usize>)
    ensures
        match r {
            Some(k) => k < attrs@.len() && attrs@[k as int].0@ == name@,
            None => forall|i: int| 0 <= i < attrs@.len() ==> attrs@[i].0@ != name@,
        },
{
    let mut i: usize = 0;
    while i < attrs.len()
        invariant
            i <= attrs@.len(),
            forall|j: int| 0 <= j < i ==> attrs@[j].0@ != name@,
        decreases attrs.len() - i,
    {
        if attrs[i].0 == *name {
            return Some(i);
        }
        i += 1;
    }
    None
}

fn new_node(is_text: bool, tag: String, data: String, binding: Option<usize>) -> (r: NodeData)
    ensures
        r@ == fresh_node(is_text, tag@, data@, binding),
{
    let r = NodeData {
        is_text,
        tag,
        data,
        binding,
        attrs: Vec::new(),
        listeners: Vec::new(),
        children: Vec::new(),
        parent: None,
    };
    proof {
        assert(r@.attrs =~= Seq::<(Seq<char>, Seq<char>)>::empty());
        assert(r@.listeners =~= Seq::<(Seq<char>, usize)>::empty());
        assert(r@ =~= fresh_node(is_text, tag@, data@, binding));
    }
    r
}

impl Surface {
    /// An empty surface.
    pub fn new() -> (r: Surface)
        ensures
            r@.wf(),
            r@.nodes.len() == 0,
    {
        let r = Surface { nodes: Vec::new() };
        assert(r@.nodes =~= Seq::<NodeModel>::empty());
        r
    }

    fn push_node(&mut self, node: NodeData) -> (n: usize)
        requires
            old(self)@.wf(),
            unique_names(node@.attrs),
        ensures
            n == old(self)@.nodes.len(),
            final(self)@ == old(self)@.add(node@),
            final(self)@.wf(),
    {
        let n = self.nodes.len();
        self.nodes.push(node);
        proof {
            assert(self@.nodes =~= old(self)@.nodes.push(node@));
        }
        n
    }

    /// Adds the listener (`event`, `handler`) to element `n`.
    fn add_listener(&mut self, n: usize, event: &str, handler: usize)
        requires
            old(self)@.wf(),
            old(self)@.is_element(n),
        ensures
            final(self)@ == old(self)@.add_listener(n, event@, handler),
            final(self)@.wf(),
    {
        let ev = event.to_owned();
        let ghost pair = (ev, handler);
        self.nodes[n].listeners.push((ev, handler));
        proof {
            let nn = self.nodes@[n as int];
            let on = old(self).nodes@[n as int];
            assert(nn.listeners@ == on.listeners@.push(pair));
            assert(nn@.listeners =~= on@.listeners.push((event@, handler)));
            assert(self@.nodes =~= old(self)@.add_listener(n, event@, handler).nodes);
        }
    }
}

impl Surface {
    /// Sets attribute `name` of element `n` to `value`, overwriting any
    /// earlier value.
    fn set_attribute(&mut self, n: usize, name: &str, value: &str)
        requires
            old(self)@.wf(),
            old(self)@.is_element(n),
        ensures
            final(self)@ == old(self)@.set_attr(n, name@, value@),
            final(self)@.wf(),
    {
        let nm = name.to_owned();
        let val = value.to_owned();
        let ghost pair = (nm, val);
        let ghost a = old(self)@.nodes[n as int].attrs;
        let found = find_attr(&self.nodes[n].attrs, &nm);
        match found {
            Some(k) => {
                self.nodes[n].attrs.set(k, (nm, val));
                proof {
                    assert(a[k as int].0 == name@);
                    assert(has_attr(a, name@));
                    let c = attr_index(a, name@);
                    assert(c == k);
                    let on = old(self).nodes@[n as int];
                    let nn = self.nodes@[n as int];
                    assert(nn.attrs@ == on.attrs@.update(k as int, pair));
                    assert(nn@.attrs =~= with_attr(a, name@, value@));
                }
            },
            None => {
                self.nodes[n].attrs.push((nm, val));
                proof {
                    assert(!has_attr(a, name@));
                    let on = old(self).nodes@[n as int];
                    let nn = self.nodes@[n as int];
                    assert(nn.attrs@ == on.attrs@.push(pair));
                    assert(nn@.attrs =~= with_attr(a, name@, value@));
                }
            },
        }
        proof {
            assert(self@.nodes =~= old(self)@.set_attr(n, name@, value@).nodes);
        }
    }
}

impl Surface {
    /// Appends the root `c` as the last child of the root element `p`.
    fn append_child(&mut self, p: usize, c: usize)
        requires
            old(self)@.wf(),
            old(self)@.is_element(p),
            c < old(self)@.nodes.len(),
            c != p,
            old(self)@.nodes[c as int].parent is None,
        ensures
            final(self)@ == old(self)@.append(p, c),
            final(self)@.wf(),
    {
        self.nodes[p].children.push(c);
        self.nodes[c].parent = Some(p);
        proof {
            let on = old(self).nodes@[p as int];
            let nn = self.nodes@[p as int];
            assert(nn.children@ == on.children@.push(c));
            assert(self@.nodes =~= old(self)@.append(p, c).nodes);
        }
    }

    /// Rewrites every text node bound to `effect` to read `data`.
    pub fn refresh(&mut self, effect: usize, data: &str)
        requires
            old(self)@.wf(),
        ensures
            final(self)@ == old(self)@.refresh(effect, data@),
            final(self)@.wf(),
    {
        let ghost target = old(self)@.refresh(effect, data@);
        let mut i: usize = 0;
        while i < self.nodes.len()
            invariant
                self@.wf(),
                i <= self@.nodes.len(),
                self@.nodes.len() == old(self)@.nodes.len(),
                target == old(self)@.refresh(effect, data@),
                forall|j: int| 0 <= j < i ==> self@.nodes[j] == target.nodes[j],
                forall|j: int| i <= j < self@.nodes.len() ==> self@.nodes[j] == old(self)@.nodes[j],
            decreases self.nodes.len() - i,
        {
            let bound = match self.nodes[i].binding {
                Some(e) => e == effect,
                None => false,
            };
            if bound {
                let ghost before = self@;
                self.nodes[i].data = data.to_owned();
                proof {
                    assert(self@.nodes[i as int] == target.nodes[i as int]);
                    assert forall|j: int| 0 <= j < self@.nodes.len() implies unique_names(
                        #[trigger] self@.nodes[j].attrs,
                    ) by {
                        if j != i {
                            assert(self@.nodes[j] == before.nodes[j]);
                        } else {
                            assert(self@.nodes[j].attrs == before.nodes[j].attrs);
                        }
                    }
                }
            }
            i += 1;
        }
        proof {
            assert(self@.nodes =~= target.nodes);
        }
    }

    /// The handlers registered on element `n` for `event`, in registration
    /// order: the ones a single firing of `event` runs, in that order.
    pub fn fire(&self, n: usize, event: &str) -> (r: Vec<usize>)
        requires
            self@.is_element(n),
        ensures
            r@ == handlers_for(self@.nodes[n as int].listeners, event@),
    {
        let ev = event.to_owned();
        let ghost l = self@.nodes[n as int].listeners;
        let ghost pred = on_event(event@);
        let listeners = &self.nodes[n].listeners;
        let mut r: Vec<usize> = Vec::new();
        let mut i: usize = 0;
        while i < listeners.len()
            invariant
                i <= listeners@.len(),
                l == listeners@.map_values(|p: (String, usize)| (p.0@, p.1)),
                ev@ == event@,
                pred == on_event(event@),
                r@ == l.take(i as int).filter(pred).map_values(|p: (Seq<char>, usize)| p.1),
            decreases listeners.len() - i,
        {
            proof {
                assert(l.take(i + 1) =~= l.take(i as int).push(l[i as int]));
                l.take(i as int).lemma_filter_push(l[i as int], pred);
            }
            if listeners[i].0 == ev {
                r.push(listeners[i].1);
                proof {
                    let f = l.take(i as int).filter(pred);
                    assert(f.push(l[i as int]).map_values(|p: (Seq<char>, usize)| p.1)
                        =~= f.map_values(|p: (Seq<char>, usize)| p.1).push(l[i as int].1));
                }
            }
            i += 1;
        }
        proof {
            assert(l.take(l.len() as int) =~= l);
        }
        r
    }
}

impl Surface {
    /// The number of nodes.
    pub fn len(&self) -> (r: usize)
        ensures
            r == self@.nodes.len(),
    {
        self.nodes.len()
    }

    /// Whether node `n` is a text node.
    pub fn is_text(&self, n: usize) -> (r: bool)
        requires
            n < self@.nodes.len(),
        ensures
            r == self@.nodes[n as int].is_text,
    {
        self.nodes[n].is_text
    }

    /// The element kind of node `n` (empty for a text node).
    pub fn tag_of(&self, n: usize) -> (r: String)
        requires
            n < self@.nodes.len(),
        ensures
            r@ == self@.nodes[n as int].tag,
    {
        self.nodes[n].tag.clone()
    }

    /// The text content of node `n` (empty for an element).
    pub fn text_of(&self, n: usize) -> (r: String)
        requires
            n < self@.nodes.len(),
        ensures
            r@ == self@.nodes[n as int].data,
    {
        self.nodes[n].data.clone()
    }

    /// The effect bound to text node `n`, if any.
    pub fn binding_of(&self, n: usize) -> (r: Option<usize>)
        requires
            n < self@.nodes.len(),
        ensures
            r == self@.nodes[n as int].binding,
    {
        self.nodes[n].binding
    }

    /// The parent of node `n`, if it has been appended somewhere.
    pub fn parent_of(&self, n: usize) -> (r: Option<usize>)
        requires
            n < self@.nodes.len(),
        ensures
            r == self@.nodes[n as int].parent,
    {
        self.nodes[n].parent
    }

    /// The children of node `n`, in order.
    pub fn children_of(&self, n: usize) -> (r: Vec<usize>)
        requires
            n < self@.nodes.len(),
        ensures
            r@ == self@.nodes[n as int].children,
    {
        let c = &self.nodes[n].children;
        let mut r: Vec<usize> = Vec::new();
        let mut i: usize = 0;
        while i < c.len()
            invariant
                i <= c@.len(),
                r@ == c@.take(i as int),
            decreases c.len() - i,
        {
            r.push(c[i]);
            proof {
                assert(c@.take(i + 1) =~= c@.take(i as int).push(c@[i as int]));
            }
            i += 1;
        }
        proof {
            assert(c@.take(c@.len() as int) =~= c@);
        }
        r
    }

    /// The attributes of node `n` as (name, value), in the order they were
    /// first set.
    pub fn attrs_of(&self, n: usize) -> (r: Vec<(String, String)>)
        requires
            n < self@.nodes.len(),
        ensures
            r@.map_values(|p: (String, String)| (p.0@, p.1@)) == self@.nodes[n as int].attrs,
    {
        let a = &self.nodes[n].attrs;
        let ghost m = self@.nodes[n as int].attrs;
        let mut r: Vec<(String, String)> = Vec::new();
        let mut i: usize = 0;
        while i < a.len()
            invariant
                i <= a@.len(),
                m == a@.map_values(|p: (String, String)| (p.0@, p.1@)),
                r@.len() == i,
                r@.map_values(|p: (String, String)| (p.0@, p.1@)) == m.take(i as int),
            decreases a.len() - i,
        {
            let name = a[i].0.clone();
            let value = a[i].1.clone();
            let ghost prev = r@;
            r.push((name, value));
            proof {
                assert(r@ == prev.push((name, value)));
                assert(name@ == a@[i as int].0@ && value@ == a@[i as int].1@);
                assert forall|j: int| 0 <= j < i implies #[trigger] r@[j] == prev[j] by {}
                assert(r@.map_values(|p: (String, String)| (p.0@, p.1@)) =~= m.take(i + 1));
            }
            i += 1;
        }
        proof {
            assert(m.take(m.len() as int) =~= m);
        }
        r
    }

    /// The listeners of node `n` as (event name, handler id), in
    /// registration order.
    pub fn listeners_of(&self, n: usize) -> (r: Vec<(String, usize)>)
        requires
            n < self@.nodes.len(),
        ensures
            r@.map_values(|p: (String, usize)| (p.0@, p.1)) == self@.nodes[n as int].listeners,
    {
        let l = &self.nodes[n].listeners;
        let ghost m = self@.nodes[n as int].listeners;
        let mut r: Vec<(String, usize)> = Vec::new();
        let mut i: usize = 0;
        while i < l.len()
            invariant
                i <= l@.len(),
                m == l@.map_values(|p: (String, usize)| (p.0@, p.1)),
                r@.len() == i,
                r@.map_values(|p: (String, usize)| (p.0@, p.1)) == m.take(i as int),
            decreases l.len() - i,
        {
            let event = l[i].0.clone();
            let ghost prev = r@;
            r.push((event, l[i].1));
            proof {
                assert(r@ == prev.push((event, l@[i as int].1)));
                assert(event@ == l@[i as int].0@);
                assert forall|j: int| 0 <= j < i implies #[trigger] r@[j] == prev[j] by {}
                assert(r@.map_values(|p: (String, usize)| (p.0@, p.1)) =~= m.take(i + 1));
            }
            i += 1;
        }
        proof {
            assert(m.take(m.len() as int) =~= m);
        }
        r
    }

    /// The value of attribute `name` of node `n`, if set.
    pub fn attribute(&self, n: usize, name: &str) -> (r: Option<String>)
        requires
            self@.wf(),
            n < self@.nodes.len(),
        ensures
            match r {
                Some(v) => attr_value(self@.nodes[n as int].attrs, name@) == Some(v@),
                None => attr_value(self@.nodes[n as int].attrs, name@) is None,
            },
    {
        let nm = name.to_owned();
        let ghost a = self@.nodes[n as int].attrs;
        match find_attr(&self.nodes[n].attrs, &nm) {
            Some(k) => {
                proof {
                    assert(a[k as int].0 == name@);
                    assert(attr_index(a, name@) == k);
                }
                Some(self.nodes[n].attrs[k].1.clone())
            },
            None => {
                proof {
                    assert(!has_attr(a, name@));
                }
                None
            },
        }
    }
}

/// A handle to an element of a [`Surface`], built up fluently: each builder
/// call takes the handle and gives it back.
#[derive(Clone, Copy, Debug)]
pub struct El {
    pub id: usize,
}

impl El {
    /// Creates a detached element of kind `tag_name`, with no attributes,
    /// listeners or children.
    pub fn new(doc: &mut Surface, tag_name: &str) -> (r: El)
        requires
            old(doc)@.wf(),
            tag_name@.len() > 0,
        ensures
            r.id == old(doc)@.nodes.len(),
            final(doc)@ == old(doc)@.add(fresh_node(false, tag_name@, Seq::empty(), None)),
            final(doc)@.wf(),
    {
        let node = new_node(false, tag_name.to_owned(), String::new(), None);
        El { id: doc.push_node(node) }
    }

    /// Registers handler `handler` for `event_name` on this element, after
    /// every handler registered before it.
    pub fn on(self, doc: &mut Surface, event_name: &str, handler: usize) -> (r: El)
        requires
            old(doc)@.wf(),
            old(doc)@.is_element(self.id),
        ensures
            r == self,
            final(doc)@ == old(doc)@.add_listener(self.id, event_name@, handler),
            final(doc)@.wf(),
    {
        doc.add_listener(self.id, event_name, handler);
        self
    }

    /// Sets attribute `attr_name` to `value`, overwriting any earlier value.
    pub fn attr(self, doc: &mut Surface, attr_name: &str, value: &str) -> (r: El)
        requires
            old(doc)@.wf(),
            old(doc)@.is_element(self.id),
        ensures
            r == self,
            final(doc)@ == old(doc)@.set_attr(self.id, attr_name@, value@),
            final(doc)@.wf(),
    {
        doc.set_attribute(self.id, attr_name, value);
        self
    }

    /// Appends a static text child holding `data`.
    pub fn text(self, doc: &mut Surface, data: &str) -> (r: El)
        requires
            old(doc)@.wf(),
            old(doc)@.is_element(self.id),
        ensures
            r == self,
            final(doc)@ == old(doc)@.add(fresh_node(true, Seq::empty(), data@, None)).append(
                self.id,
                old(doc)@.nodes.len() as usize,
            ),
            final(doc)@.wf(),
    {
        let node = new_node(true, String::new(), data.to_owned(), None);
        let t = doc.push_node(node);
        doc.append_child(self.id, t);
        self
    }

    /// Appends the detached element `child` as the last child; its subtree
    /// now belongs to this element. Both are roots of their own trees.
    pub fn child(self, doc: &mut Surface, child: El) -> (r: El)
        requires
            old(doc)@.wf(),
            old(doc)@.is_element(self.id),
            child.id < old(doc)@.nodes.len(),
            child.id != self.id,
            old(doc)@.nodes[child.id as int].parent is None,
            old(doc)@.nodes[self.id as int].parent is None,
        ensures
            r == self,
            final(doc)@ == old(doc)@.append(self.id, child.id),
            final(doc)@.wf(),
    {
        doc.append_child(self.id, child.id);
        self
    }

    /// Appends a text child bound to `effect`, holding `initial`: the text
    /// the effect's first run produced. It changes only when
    /// [`Surface::refresh`] is called for that effect.
    pub fn dyn_text(self, doc: &mut Surface, effect: usize, initial: &str) -> (r: El)
        requires
            old(doc)@.wf(),
            old(doc)@.is_element(self.id),
        ensures
            r == self,
            final(doc)@ == old(doc)@.add(fresh_node(true, Seq::empty(), initial@, Some(effect))).append(
                self.id,
                old(doc)@.nodes.len() as usize,
            ),
            final(doc)@.nodes[old(doc)@.nodes.len() as int].data == initial@,
            final(doc)@.wf(),
    {
        let node = new_node(true, String::new(), initial.to_owned(), Some(effect));
        let t = doc.push_node(node);
        doc.append_child(self.id, t);
        self
    }
}

} // verus!
