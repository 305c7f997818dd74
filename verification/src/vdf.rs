use vstd::prelude::*;

verus! {

/// A value of a KeyValues (VDF) document: text, or an object that maps each key, in
/// increasing order, to the values given for it.
#[derive(Debug, PartialEq)]
pub enum Vdf {
    Str(String),
    Obj(Vec<(String, Vec<Vdf>)>),
}

/// The contents of a `Vdf`.
pub enum VdfView {
    Str(Seq<char>),
    Obj(Seq<(Seq<char>, Seq<VdfView>)>),
}

/// The contents of `v`.
pub open spec fn vdf_view(v: Vdf) -> VdfView
    decreases v,
{
    match v {
        Vdf::Str(s) => VdfView::Str(s@),
        Vdf::Obj(es) => VdfView::Obj(
            Seq::new(
                es@.len(),
                |i: int|
                    (
                        es@[i].0@,
                        Seq::new(
                            es@[i].1@.len(),
                            |j: int|
                                if 0 <= i < es@.len() && 0 <= j < es@[i].1@.len() {
                                    vdf_view(es@[i].1@[j])
                                } else {
                                    VdfView::Str(Seq::empty())
                                },
                        ),
                    ),
            ),
        ),
    }
}

impl View for Vdf {
    type V = VdfView;

    open spec fn view(&self) -> VdfView {
        vdf_view(*self)
    }
}

/// The contents of the values `vs`.
pub open spec fn vdfs_view(vs: Seq<Vdf>) -> Seq<VdfView> {
    Seq::new(vs.len(), |j: int| vdf_view(vs[j]))
}

/// The contents of the object entries `es`.
pub open spec fn entries_view(es: Seq<(String, Vec<Vdf>)>) -> Seq<(Seq<char>, Seq<VdfView>)> {
    Seq::new(es.len(), |i: int| (es[i].0@, vdfs_view(es[i].1@)))
}

/// An object's contents are its entries' contents.
pub proof fn lemma_obj_view(es: Vec<(String, Vec<Vdf>)>)
    ensures
        vdf_view(Vdf::Obj(es)) == VdfView::Obj(entries_view(es@)),
{
    let a = vdf_view(Vdf::Obj(es))->Obj_0;
    let b = entries_view(es@);
    assert forall|i: int| 0 <= i < b.len() implies a[i] == b[i] by {
        assert(a[i].1 =~= b[i].1);
    }
    assert(a =~= b);
}

/// The values of the first entry of `es` under `key`, if there is one.
pub open spec fn spec_vdf_lookup(es: Seq<(Seq<char>, Seq<VdfView>)>, key: Seq<char>) -> Option<
    Seq<VdfView>,
>
    decreases es.len(),
{
    if es.len() == 0 {
        None
    } else if es[0].0 == key {
        Some(es[0].1)
    } else {
        spec_vdf_lookup(es.drop_first(), key)
    }
}

/// The values of the first entry of `es` under `key`, if there is one.
pub fn vdf_lookup<'a>(es: &'a Vec<(String, Vec<Vdf>)>, key: &str) -> (r: Option<&'a Vec<Vdf>>)
    ensures
        match r {
            Some(vs) => spec_vdf_lookup(entries_view(es@), key@) == Some(vdfs_view(vs@)),
            None => spec_vdf_lookup(entries_view(es@), key@) is None,
        },
{
    let ghost ev = entries_view(es@);
    let k = crate::text::owned(key);
    let mut i: usize = 0;
    assert(ev.subrange(0, ev.len() as int) =~= ev);
    while i < es.len()
        invariant
            i <= es@.len(),
            ev == entries_view(es@),
            k@ == key@,
            spec_vdf_lookup(ev, key@) == spec_vdf_lookup(ev.subrange(i as int, ev.len() as int), key@),
        decreases es@.len() - i,
    {
        let ghost rest = ev.subrange(i as int, ev.len() as int);
        assert(rest[0] == ev[i as int]);
        assert(rest.drop_first() =~= ev.subrange(i + 1, ev.len() as int));
        if es[i].0 == k {
            return Some(&es[i].1);
        }
        i = i + 1;
    }
    None
}

/// How KeyValues writes the text `s` inside quotes: line breaks, carriage returns, tabs,
/// quotes and backslashes escaped with a backslash.
pub open spec fn spec_vdf_escape(s: Seq<char>) -> Seq<char>
    decreases s.len(),
{
    if s.len() == 0 {
        Seq::empty()
    } else {
        let c = s.last();
        let e = if c == '\n' {
            seq!['\\', 'n']
        } else if c == '\r' {
            seq!['\\', 'r']
        } else if c == '\t' {
            seq!['\\', 't']
        } else if c == '"' || c == '\\' {
            seq!['\\', c]
        } else {
            seq![c]
        };
        spec_vdf_escape(s.drop_last()) + e
    }
}

/// The text value `s` as KeyValues writes it: in quotes, escaped (the `Display` of a text
/// value of `keyvalues_parser`).
pub open spec fn spec_vdf_quoted(s: Seq<char>) -> Seq<char> {
    seq!['"'] + spec_vdf_escape(s) + seq!['"']
}

/// The text value `s` as KeyValues writes it (see `spec_vdf_quoted`).
pub fn vdf_quoted(s: &str) -> (r: String)
    ensures
        r@ == spec_vdf_quoted(s@),
{
    let v = crate::text::chars_of(s);
    let mut r = String::new();
    crate::text::push_char(&mut r, '"');
    let mut i: usize = 0;
    while i < v.len()
        invariant
            i <= v@.len(),
            v@ == s@,
            r@ == seq!['"'] + spec_vdf_escape(v@.subrange(0, i as int)),
        decreases v@.len() - i,
    {
        let c = v[i];
        assert(v@.subrange(0, i + 1).drop_last() =~= v@.subrange(0, i as int));
        if c == '\n' {
            crate::text::push_char(&mut r, '\\');
            crate::text::push_char(&mut r, 'n');
        } else if c == '\r' {
            crate::text::push_char(&mut r, '\\');
            crate::text::push_char(&mut r, 'r');
        } else if c == '\t' {
            crate::text::push_char(&mut r, '\\');
            crate::text::push_char(&mut r, 't');
        } else if c == '"' || c == '\\' {
            crate::text::push_char(&mut r, '\\');
            crate::text::push_char(&mut r, c);
        } else {
            crate::text::push_char(&mut r, c);
        }
        i = i + 1;
        assert(r@ =~= seq!['"'] + spec_vdf_escape(v@.subrange(0, i as int)));
    }
    assert(v@.subrange(0, i as int) =~= v@);
    crate::text::push_char(&mut r, '"');
    assert(r@ =~= spec_vdf_quoted(s@));
    r
}

/// The document that the KeyValues text `text` holds (its top-level value), as
/// `keyvalues_parser` reads it, or `None` when it cannot be read.
pub uninterp spec fn spec_parse_vdf(text: Seq<char>) -> Option<VdfView>;

/// Reads KeyValues text.
///
/// Trusted: `keyvalues_parser::parse`; claims only that the value read (the top-level
/// value of the document, `#base` lines left aside) is `spec_parse_vdf` of the text, named
/// and not spelled out: what the parser makes of a text depends on the text alone.
#[verifier::external_body]
pub(crate) fn parse_vdf(text: &str) -> (r: Option<Vdf>)
    ensures
        match r {
            Some(v) => spec_parse_vdf(text@) == Some(v@),
            None => spec_parse_vdf(text@) is None,
        },
{
    let parsed = keyvalues_parser::parse(text).ok()?;
    Some(vdf_of_value(&parsed.value))
}

/// `keyvalues_parser`'s value `v` as a `Vdf`, node for node (entries in the map's order).
///
/// Trusted as part of `parse_vdf`, whose result it builds: it calls nothing and only moves
/// texts and the tree's shape over; nothing is claimed of it on its own.
#[verifier::external_body]
fn vdf_of_value(v: &keyvalues_parser::Value) -> Vdf {
    match v {
        keyvalues_parser::Value::Str(s) => Vdf::Str(s.to_string()),
        keyvalues_parser::Value::Obj(obj) => Vdf::Obj(
            obj.iter().map(|(k, vs)| (k.to_string(), vs.iter().map(vdf_of_value).collect())).collect(),
        ),
    }
}

#[verifier::external_type_specification]
#[verifier::external_body]
pub struct ExVdfValue<'a>(keyvalues_parser::Value<'a>);

} // verus!
