//! A decoded JSON tree and the response-shape sample: leaves replaced
//! by type tags, objects capped to their first ten keys, arrays to a
//! one-element sample, and depth capped at three levels.
use vstd::prelude::*;

verus! {

/// A JSON value as the library holds it.  A number keeps its literal
/// text; the shape pass never reads it.
pub enum JsonValue {
    Null,
    Bool(bool),
    Num(String),
    Str(String),
    Arr(Vec<JsonValue>),
    Obj(Vec<(String, JsonValue)>),
}

/// The mathematical form of a JSON value.
#[verifier::ext_equal]
pub enum JsonView {
    Null,
    Bool(bool),
    Num(Seq<char>),
    Str(Seq<char>),
    Arr(Seq<JsonView>),
    Obj(Seq<(Seq<char>, JsonView)>),
}

pub open spec fn json_view(v: JsonValue) -> JsonView
    decreases v,
{
    match v {
        JsonValue::Null => JsonView::Null,
        JsonValue::Bool(b) => JsonView::Bool(b),
        JsonValue::Num(s) => JsonView::Num(s@),
        JsonValue::Str(s) => JsonView::Str(s@),
        JsonValue::Arr(items) => JsonView::Arr(json_views(items@)),
        JsonValue::Obj(fields) => JsonView::Obj(json_field_views(fields@)),
    }
}

pub open spec fn json_views(l: Seq<JsonValue>) -> Seq<JsonView>
    decreases l,
{
    if l.len() == 0 {
        Seq::empty()
    } else {
        seq![json_view(l[0])] + json_views(l.drop_first())
    }
}

pub open spec fn json_field_views(l: Seq<(String, JsonValue)>) -> Seq<(Seq<char>, JsonView)>
    decreases l,
{
    if l.len() == 0 {
        Seq::empty()
    } else {
        seq![(l[0].0@, json_view(l[0].1))] + json_field_views(l.drop_first())
    }
}

pub proof fn lemma_json_views_index(l: Seq<JsonValue>)
    ensures
        json_views(l).len() == l.len(),
        forall|i: int| 0 <= i < l.len() ==> json_views(l)[i] == json_view(l[i]),
    decreases l,
{
    if l.len() > 0 {
        lemma_json_views_index(l.drop_first());
        assert forall|i: int| 0 <= i < l.len() implies json_views(l)[i] == json_view(l[i]) by {
            if i > 0 {
                assert(json_views(l)[i] == json_views(l.drop_first())[i - 1]);
                assert(l.drop_first()[i - 1] == l[i]);
            }
        }
    }
}

pub proof fn lemma_json_field_views_index(l: Seq<(String, JsonValue)>)
    ensures
        json_field_views(l).len() == l.len(),
        forall|i: int|
            0 <= i < l.len() ==> json_field_views(l)[i] == (l[i].0@, json_view(l[i].1)),
    decreases l,
{
    if l.len() > 0 {
        lemma_json_field_views_index(l.drop_first());
        assert forall|i: int| 0 <= i < l.len() implies json_field_views(l)[i] == (
        l[i].0@,
        json_view(l[i].1),
        ) by {
            if i > 0 {
                assert(json_field_views(l)[i] == json_field_views(l.drop_first())[i - 1]);
                assert(l.drop_first()[i - 1] == l[i]);
            }
        }
    }
}

/// The shape of one JSON value: leaves become the tags `str`, `num`,
/// `bool` (null stays null); an object keeps its first ten keys, each
/// shaped one level deeper; an array keeps a one-element sample; below
/// three levels everything becomes an ellipsis marker.
pub open spec fn spec_shape(v: JsonView, depth: int) -> JsonView
    decreases 3 - depth, 0int,
{
    if depth > 2 {
        JsonView::Str("..."@)
    } else {
        match v {
            JsonView::Null => JsonView::Null,
            JsonView::Bool(_) => JsonView::Str("bool"@),
            JsonView::Num(_) => JsonView::Str("num"@),
            JsonView::Str(_) => JsonView::Str("str"@),
            JsonView::Arr(items) => if items.len() == 0 {
                JsonView::Arr(Seq::empty())
            } else {
                JsonView::Arr(seq![spec_shape(items[0], depth + 1)])
            },
            JsonView::Obj(fields) => {
                let cap = if fields.len() < 10 {
                    fields.len() as int
                } else {
                    10
                };
                JsonView::Obj(spec_shape_fields(fields.take(cap), depth + 1))
            },
        }
    }
}

pub open spec fn spec_shape_fields(l: Seq<(Seq<char>, JsonView)>, depth: int) -> Seq<
    (Seq<char>, JsonView),
>
    decreases 3 - depth, l.len(),
{
    if l.len() == 0 || depth > 3 {
        Seq::empty()
    } else {
        seq![(l[0].0, spec_shape(l[0].1, depth))] + spec_shape_fields(l.drop_first(), depth)
    }
}

proof fn lemma_shape_fields_snoc(l: Seq<(Seq<char>, JsonView)>, x: (Seq<char>, JsonView), depth: int)
    requires
        depth <= 3,
    ensures
        spec_shape_fields(l.push(x), depth) == spec_shape_fields(l, depth) + seq![
            (x.0, spec_shape(x.1, depth)),
        ],
    decreases l.len(),
{
    if l.len() == 0 {
        assert(l.push(x)[0] == x);
        assert(l.push(x).drop_first() =~= Seq::<(Seq<char>, JsonView)>::empty());
        assert(spec_shape_fields(l.push(x).drop_first(), depth) =~= Seq::<(
            Seq<char>,
            JsonView,
        )>::empty());
        assert(spec_shape_fields(l.push(x), depth) =~~= Seq::<(Seq<char>, JsonView)>::empty()
            + seq![(x.0, spec_shape(x.1, depth))]);
    } else {
        assert(l.push(x)[0] == l[0]);
        assert(l.push(x).drop_first() =~= l.drop_first().push(x));
        lemma_shape_fields_snoc(l.drop_first(), x, depth);
        assert(seq![(l[0].0, spec_shape(l[0].1, depth))] + (spec_shape_fields(l.drop_first(), depth)
            + seq![(x.0, spec_shape(x.1, depth))]) =~= (seq![(l[0].0, spec_shape(l[0].1, depth))]
            + spec_shape_fields(l.drop_first(), depth)) + seq![(x.0, spec_shape(x.1, depth))]);
    }
}

proof fn lemma_json_field_views_snoc(l: Seq<(String, JsonValue)>, x: (String, JsonValue))
    ensures
        json_field_views(l.push(x)) == json_field_views(l) + seq![(x.0@, json_view(x.1))],
    decreases l.len(),
{
    if l.len() == 0 {
        assert(l.push(x)[0] == x);
        assert(l.push(x).drop_first() =~= Seq::<(String, JsonValue)>::empty());
        assert(json_field_views(l.push(x).drop_first()) =~= Seq::<(Seq<char>, JsonView)>::empty());
        assert(json_field_views(l.push(x)) =~~= Seq::<(Seq<char>, JsonView)>::empty() + seq![
            (x.0@, json_view(x.1)),
        ]);
    } else {
        assert(l.push(x)[0] == l[0]);
        assert(l.push(x).drop_first() =~= l.drop_first().push(x));
        lemma_json_field_views_snoc(l.drop_first(), x);
        assert(seq![(l[0].0@, json_view(l[0].1))] + (json_field_views(l.drop_first()) + seq![
            (x.0@, json_view(x.1)),
        ]) =~= (seq![(l[0].0@, json_view(l[0].1))] + json_field_views(l.drop_first())) + seq![
            (x.0@, json_view(x.1)),
        ]);
    }
}

/// Extract the response-shape sample of `v`, starting at the given
/// depth.
pub fn extract_shape(v: &JsonValue, depth: u32) -> (r: JsonValue)
    requires
        depth <= 3,
    ensures
        json_view(r) == spec_shape(json_view(*v), depth as int),
    decreases 3 - depth,
{
    if depth > 2 {
        return JsonValue::Str(String::from_str("..."));
    }
    match v {
        JsonValue::Null => JsonValue::Null,
        JsonValue::Bool(_) => JsonValue::Str(String::from_str("bool")),
        JsonValue::Num(_) => JsonValue::Str(String::from_str("num")),
        JsonValue::Str(_) => JsonValue::Str(String::from_str("str")),
        JsonValue::Arr(items) => {
            if items.len() == 0 {
                let r = JsonValue::Arr(Vec::new());
                proof {
                    assert(json_views(Seq::<JsonValue>::empty()) =~= Seq::<JsonView>::empty());
                    assert(json_view(r) =~= spec_shape(json_view(*v), depth as int));
                }
                r
            } else {
                let first = extract_shape(&items[0], depth + 1);
                let ghost fv = json_view(first);
                let mut out: Vec<JsonValue> = Vec::new();
                out.push(first);
                let r = JsonValue::Arr(out);
                proof {
                    lemma_json_views_index(out@);
                    lemma_json_views_index(items@);
                    assert(json_views(out@) =~= seq![fv]);
                    assert(json_view(*v) == JsonView::Arr(json_views(items@)));
                    assert(json_views(items@)[0] == json_view(items@[0]));
                    assert(json_view(r) =~= spec_shape(json_view(*v), depth as int));
                }
                r
            }
        },
        JsonValue::Obj(fields) => {
            let ghost fv = json_field_views(fields@);
            let cap: usize = if fields.len() < 10 {
                fields.len()
            } else {
                10
            };
            let mut out: Vec<(String, JsonValue)> = Vec::new();
            let mut i: usize = 0;
            proof {
                lemma_json_field_views_index(fields@);
                assert(json_field_views(out@) =~= spec_shape_fields(
                    fv.take(0),
                    depth as int + 1,
                ));
            }
            while i < cap
                invariant
                    i <= cap,
                    cap <= fields@.len(),
                    fv == json_field_views(fields@),
                    fv.len() == fields@.len(),
                    depth <= 2,
                    json_field_views(out@) == spec_shape_fields(fv.take(i as int), depth as int + 1),
                decreases cap - i,
            {
                let shaped = extract_shape(&fields[i].1, depth + 1);
                let ghost sv = json_view(shaped);
                let key = fields[i].0.clone();
                let ghost kv = key@;
                let ghost before = out@;
                out.push((key, shaped));
                proof {
                    lemma_json_field_views_snoc(before, ((fields@[i as int].0), fields@[i as int].1));
                    assert(out@ =~= before.push((out@[out@.len() - 1].0, out@[out@.len() - 1].1)));
                    lemma_json_field_views_snoc(before, out@.last());
                    assert(out@ == before.push(out@.last()));
                    assert(out@.last().0@ == fv[i as int].0);
                    assert(json_view(out@.last().1) == spec_shape(fv[i as int].1, depth as int + 1));
                    lemma_shape_fields_snoc(fv.take(i as int), fv[i as int], depth as int + 1);
                    assert(fv.take(i as int).push(fv[i as int]) =~= fv.take(i as int + 1));
                    assert(json_field_views(out@) =~= spec_shape_fields(
                        fv.take(i as int + 1),
                        depth as int + 1,
                    ));
                }
                i = i + 1;
            }
            let r = JsonValue::Obj(out);
            proof {
                let scap = if fv.len() < 10 {
                    fv.len() as int
                } else {
                    10
                };
                assert(scap == cap as int);
                assert(json_view(r) =~= spec_shape(json_view(*v), depth as int));
            }
            r
        },
    }
}

} // verus!
