//! Writes a subtree of the markup tree out as markup again.
//!
//! A drawing is handed to its rasterizer as markup. The markup is that of
//! the elements and the text of the subtree, in document order, with the
//! characters that markup reserves written as entities.

use crate::html_parser::{
    after_next, child_edges, local_name_of, Attribute, EdgeRef, EdgeView, Element, Leaf,
    NodeTreeIter,
};
use crate::resource::{chars_of, text_of};
use crate::tree::{NodeId, Tree, TreeState};
use vstd::prelude::*;

verus! {

/// How a character is written in markup.
pub open spec fn escaped_char(c: char) -> Seq<char> {
    if c == '&' {
        seq!['&', 'a', 'm', 'p', ';']
    } else if c == '<' {
        seq!['&', 'l', 't', ';']
    } else if c == '>' {
        seq!['&', 'g', 't', ';']
    } else if c == '"' {
        seq!['&', 'q', 'u', 'o', 't', ';']
    } else {
        seq![c]
    }
}

/// The first `k` characters of `s` as they are written in markup.
pub open spec fn escaped(s: Seq<char>, k: int) -> Seq<char>
    decreases k,
{
    if k <= 0 {
        Seq::empty()
    } else {
        escaped(s, k - 1) + escaped_char(s[k - 1])
    }
}

/// The name of an attribute as it is written: with its prefix, if it has one.
pub open spec fn written_name(a: Attribute) -> Seq<char> {
    match a.name.prefix {
        Some(p) => p@ + seq![':'] + a.name.local@,
        None => a.name.local@,
    }
}

/// An attribute as it is written in a tag, a blank in front.
pub open spec fn written_attr(a: Attribute) -> Seq<char> {
    seq![' '] + written_name(a) + seq!['=', '"'] + escaped(a.value@, a.value@.len() as int) + seq![
        '"',
    ]
}

/// The first `k` attributes as they are written in a tag.
pub open spec fn written_attrs(attrs: Seq<Attribute>, k: int) -> Seq<char>
    decreases k,
{
    if k <= 0 {
        Seq::empty()
    } else {
        written_attrs(attrs, k - 1) + written_attr(attrs[k - 1])
    }
}

/// The tag that opens the element.
pub open spec fn open_tag(el: Element) -> Seq<char> {
    seq!['<'] + el.name.local@ + written_attrs(el.attrs@, el.attrs@.len() as int) + seq!['>']
}

/// The tag that closes an element of the name `local`.
pub open spec fn close_tag(local: Seq<char>) -> Seq<char> {
    seq!['<', '/'] + local + seq!['>']
}

/// What an edge of the walk writes.
pub open spec fn written_edge(s: TreeState<Leaf>, e: EdgeView) -> Seq<char> {
    match e {
        EdgeView::Open(id) => open_tag(s.payloads[id.0]->Element_0),
        EdgeView::Close(id, name) => close_tag(name),
        EdgeView::Text(id) => {
            let t = s.payloads[id.0]->Text_0.t@;
            escaped(t, t.len() as int)
        },
    }
}

/// What the walk that starts with `pending` writes behind `out`; nothing
/// where the walk does not end within `fuel` steps.
pub open spec fn written(
    s: TreeState<Leaf>,
    out: Seq<char>,
    pending: Seq<EdgeView>,
    fuel: nat,
) -> Option<Seq<char>>
    decreases fuel,
{
    if pending.len() == 0 {
        Some(out)
    } else if fuel == 0 {
        None
    } else {
        written(s, out + written_edge(s, pending[0]), after_next(s, pending), (fuel - 1) as nat)
    }
}

/// The markup of the element `id` and all it holds; nothing where `id` is no
/// element, or where the walk through what it holds does not end.
pub open spec fn markup_of(s: TreeState<Leaf>, id: NodeId) -> Option<Seq<char>> {
    if s.payloads.contains_key(id.0) && s.payloads[id.0] is Element {
        match written(s, open_tag(s.payloads[id.0]->Element_0), child_edges(s, id), 2 * s.count) {
            Some(inner) => Some(inner + close_tag(s.payloads[id.0]->Element_0.name.local@)),
            None => None,
        }
    } else {
        None
    }
}

fn push_all(out: &mut Vec<char>, text: &Vec<char>)
    ensures
        final(out)@ == old(out)@ + text@,
{
    let mut i: usize = 0;
    assert(out@ =~= old(out)@ + text@.take(0));
    while i < text.len()
        invariant
            i <= text@.len(),
            out@ == old(out)@ + text@.take(i as int),
        decreases text@.len() - i,
    {
        out.push(text[i]);
        i = i + 1;
        assert(out@ =~= old(out)@ + text@.take(i as int));
    }
    assert(text@.take(text@.len() as int) =~= text@);
}

fn push_escaped(out: &mut Vec<char>, text: &Vec<char>)
    ensures
        final(out)@ == old(out)@ + escaped(text@, text@.len() as int),
{
    let mut i: usize = 0;
    assert(out@ =~= old(out)@ + escaped(text@, 0));
    while i < text.len()
        invariant
            i <= text@.len(),
            out@ == old(out)@ + escaped(text@, i as int),
        decreases text@.len() - i,
    {
        let c = text[i];
        let ghost before = out@;
        if c == '&' {
            out.push('&');
            out.push('a');
            out.push('m');
            out.push('p');
            out.push(';');
        } else if c == '<' {
            out.push('&');
            out.push('l');
            out.push('t');
            out.push(';');
        } else if c == '>' {
            out.push('&');
            out.push('g');
            out.push('t');
            out.push(';');
        } else if c == '"' {
            out.push('&');
            out.push('q');
            out.push('u');
            out.push('o');
            out.push('t');
            out.push(';');
        } else {
            out.push(c);
        }
        assert(out@ =~= before + escaped_char(c));
        i = i + 1;
        assert(out@ =~= old(out)@ + escaped(text@, i as int));
    }
}

fn push_attr(out: &mut Vec<char>, a: &Attribute)
    ensures
        final(out)@ == old(out)@ + written_attr(*a),
{
    out.push(' ');
    match &a.name.prefix {
        Some(p) => {
            push_all(out, &chars_of(p.as_str()));
            out.push(':');
        },
        None => {},
    }
    push_all(out, &chars_of(a.name.local.as_str()));
    out.push('=');
    out.push('"');
    push_escaped(out, &chars_of(a.value.as_str()));
    out.push('"');
    assert(out@ =~= old(out)@ + written_attr(*a));
}

fn push_open_tag(out: &mut Vec<char>, el: &Element)
    ensures
        final(out)@ == old(out)@ + open_tag(*el),
{
    out.push('<');
    push_all(out, &chars_of(el.name.local.as_str()));
    let ghost head = out@;
    let mut k: usize = 0;
    assert(out@ =~= head + written_attrs(el.attrs@, 0));
    while k < el.attrs.len()
        invariant
            k <= el.attrs@.len(),
            out@ == head + written_attrs(el.attrs@, k as int),
        decreases el.attrs@.len() - k,
    {
        push_attr(out, &el.attrs[k]);
        k = k + 1;
        assert(out@ =~= head + written_attrs(el.attrs@, k as int));
    }
    out.push('>');
    assert(out@ =~= old(out)@ + open_tag(*el));
}

fn push_close_tag(out: &mut Vec<char>, local: &String)
    ensures
        final(out)@ == old(out)@ + close_tag(local@),
{
    out.push('<');
    out.push('/');
    push_all(out, &chars_of(local.as_str()));
    out.push('>');
    assert(out@ =~= old(out)@ + close_tag(local@));
}

/// The markup of the element `id` of `tree` and all it holds.
#[verifier::loop_isolation(false)]
pub fn serialize(tree: &Tree<Leaf>, id: NodeId) -> (r: Option<String>)
    ensures
        match r {
            Some(markup) => markup_of(tree.state(), id) == Some(markup@),
            None => markup_of(tree.state(), id) is None,
        },
{
    let ghost s = tree.state();
    let element = match tree.get_context(id) {
        Some(Leaf::Element(element)) => element,
        _ => {
            return None;
        },
    };
    let mut out: Vec<char> = Vec::new();
    push_open_tag(&mut out, element);
    assert(out@ =~= open_tag(*element));
    let mut it = NodeTreeIter::new(tree, id);
    let mut fuel: u64 = 2 * (tree.node_count() as u64);
    let ghost goal = written(s, out@, it.pending(), fuel as nat);
    loop
        invariant
            it.source() == *tree,
            written(s, out@, it.pending(), fuel as nat) == goal,
        decreases fuel,
    {
        let ghost pending0 = it.pending();
        let edge = match it.next() {
            Some(e) => e,
            None => {
                push_close_tag(&mut out, &element.name.local);
                return Some(text_of(&out));
            },
        };
        if fuel == 0 {
            return None;
        }
        fuel = fuel - 1;
        match &edge {
            EdgeRef::OpenElement(el) => {
                push_open_tag(&mut out, el.el);
            },
            EdgeRef::CloseElement(_id, name) => {
                push_close_tag(&mut out, name);
            },
            EdgeRef::Text(t) => {
                push_escaped(&mut out, &chars_of(t.t.t.as_str()));
            },
        }
    }
}

} // verus!
