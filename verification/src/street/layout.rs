use vstd::prelude::*;

use crate::street::types::{Gradient, LayerFilters, SignpostConnection};
use crate::street::xml::XmlValue;
use crate::text::owned;

verus! {

/// The child called `k` of an object value.
pub open spec fn child(v: XmlValue, k: Seq<char>) -> Option<XmlValue> {
    match v {
        XmlValue::Object(m) => if m@.contains_key(k) {
            Some(m@[k])
        } else {
            None
        },
        _ => None,
    }
}

/// The text of the `<str>` child called `k`.
pub open spec fn child_text(v: XmlValue, k: Seq<char>) -> Option<Seq<char>> {
    match child(v, k) {
        Some(XmlValue::Str(s)) => Some(s@),
        _ => None,
    }
}

/// The part of a street document that holds its data: the `dynamic`
/// child, or the whole document where there is none.
pub open spec fn dynamic_spec(root: XmlValue) -> XmlValue {
    match child(root, "dynamic"@) {
        Some(d) => d,
        None => root,
    }
}

/// The part of a street document that holds its data: the `dynamic`
/// child, or the whole document where there is none.
pub fn dynamic_part(root: &XmlValue) -> (r: &XmlValue)
    ensures
        *r == dynamic_spec(*root),
{
    match root.get("dynamic") {
        Some(d) => d,
        None => root,
    }
}

/// The text of the `<str>` child called `key`, or `default`.
pub fn text_or(v: &XmlValue, key: &str, default: &str) -> (r: String)
    ensures
        r@ == (match child_text(*v, key@) {
            Some(t) => t,
            None => default@,
        }),
{
    match v.get(key) {
        Some(c) => match c.as_str() {
            Some(t) => owned(t),
            None => owned(default),
        },
        None => owned(default),
    }
}

/// The sky gradient: the `top` and `bottom` texts of the `gradient` child,
/// when both are there.
pub open spec fn gradient_spec(dynamic: XmlValue) -> Option<(Seq<char>, Seq<char>)> {
    match child(dynamic, "gradient"@) {
        Some(g) => match (child_text(g, "top"@), child_text(g, "bottom"@)) {
            (Some(t), Some(b)) => Some((t, b)),
            _ => None,
        },
        None => None,
    }
}

/// The sky gradient of a street's data, when it has a complete one.
pub fn street_gradient(dynamic: &XmlValue) -> (r: Option<Gradient>)
    ensures
        match r {
            Some(g) => gradient_spec(*dynamic) == Some((g.top@, g.bottom@)),
            None => gradient_spec(*dynamic) is None,
        },
{
    let g = match dynamic.get("gradient") {
        Some(g) => g,
        None => return None,
    };
    let top = match g.get("top") {
        Some(t) => match t.as_str() {
            Some(s) => owned(s),
            None => return None,
        },
        None => return None,
    };
    let bottom = match g.get("bottom") {
        Some(b) => match b.as_str() {
            Some(s) => owned(s),
            None => return None,
        },
        None => return None,
    };
    Some(Gradient { top, bottom })
}

/// One filter setting: the integer `value` of the child called `k`,
/// truncated to 32 bits.
pub open spec fn filter_spec(f: XmlValue, k: Seq<char>) -> Option<i32> {
    match child(f, k) {
        Some(s) => match child(s, "value"@) {
            Some(XmlValue::Int(v)) => Some(v as i32),
            _ => None,
        },
        None => None,
    }
}

/// One filter setting of a layer's filters.
fn filter_value(f: &XmlValue, key: &str) -> (r: Option<i32>)
    ensures
        r == filter_spec(*f, key@),
{
    match f.get(key) {
        Some(s) => match s.get("value") {
            Some(x) => match x.as_int() {
                Some(v) => Some(v as i32),
                None => None,
            },
            None => None,
        },
        None => None,
    }
}

/// The filters of a layer: present when the layer has a `filtersNEW`
/// object, each setting read from it.
pub open spec fn filters_spec(layer: XmlValue) -> Option<LayerFilters> {
    match child(layer, "filtersNEW"@) {
        Some(f) => if f is Object {
            Some(
                LayerFilters {
                    brightness: filter_spec(f, "brightness"@),
                    contrast: filter_spec(f, "contrast"@),
                    saturation: filter_spec(f, "saturation"@),
                    blur: filter_spec(f, "blur"@),
                    tint_color: filter_spec(f, "tintColor"@),
                    tint_amount: filter_spec(f, "tintAmount"@),
                },
            )
        } else {
            None
        },
        None => None,
    }
}

/// The visual filters of a layer.
pub fn parse_filters(layer: &XmlValue) -> (r: Option<LayerFilters>)
    ensures
        r == filters_spec(*layer),
{
    let f = match layer.get("filtersNEW") {
        Some(f) => f,
        None => return None,
    };
    if f.as_object().is_none() {
        return None;
    }
    Some(
        LayerFilters {
            brightness: filter_value(f, "brightness"),
            contrast: filter_value(f, "contrast"),
            saturation: filter_value(f, "saturation"),
            blur: filter_value(f, "blur"),
            tint_color: filter_value(f, "tintColor"),
            tint_amount: filter_value(f, "tintAmount"),
        },
    )
}

/// The integer found by following the children named `path` from `v`.
pub open spec fn int_at(v: XmlValue, path: Seq<Seq<char>>) -> Option<i64>
    decreases path.len(),
{
    if path.len() == 0 {
        match v {
            XmlValue::Int(i) => Some(i),
            _ => None,
        }
    } else {
        match child(v, path[0]) {
            Some(c) => int_at(c, path.drop_first()),
            None => None,
        }
    }
}

/// An integer truncated to 32 bits, if there is one.
pub open spec fn as_i32(o: Option<i64>) -> Option<i32> {
    match o {
        Some(i) => Some(i as i32),
        None => None,
    }
}

/// Each filter setting of a layer is the integer under
/// `filtersNEW/<setting>/value` of the same name (truncated to 32 bits):
/// brightness from `brightness`, contrast from `contrast`, saturation from
/// `saturation`, blur from `blur`, tint colour from `tintColor` and tint
/// amount from `tintAmount`; and filters exist exactly when `filtersNEW` is
/// an object.
pub proof fn lemma_filters_by_name(layer: XmlValue)
    ensures
        filters_spec(layer) is Some <==> (child(layer, "filtersNEW"@) matches Some(f) && f is Object),
        filters_spec(layer) matches Some(f) ==> {
            &&& f.brightness == as_i32(int_at(layer, seq!["filtersNEW"@, "brightness"@, "value"@]))
            &&& f.contrast == as_i32(int_at(layer, seq!["filtersNEW"@, "contrast"@, "value"@]))
            &&& f.saturation == as_i32(int_at(layer, seq!["filtersNEW"@, "saturation"@, "value"@]))
            &&& f.blur == as_i32(int_at(layer, seq!["filtersNEW"@, "blur"@, "value"@]))
            &&& f.tint_color == as_i32(int_at(layer, seq!["filtersNEW"@, "tintColor"@, "value"@]))
            &&& f.tint_amount == as_i32(int_at(layer, seq!["filtersNEW"@, "tintAmount"@, "value"@]))
        },
{
    if let Some(f) = child(layer, "filtersNEW"@) {
        assert forall|k: Seq<char>| #![trigger filter_spec(f, k)]
            filter_spec(f, k) == as_i32(int_at(layer, seq!["filtersNEW"@, k, "value"@])) by {
            let p = seq!["filtersNEW"@, k, "value"@];
            let p1 = seq![k, "value"@];
            let p2 = seq!["value"@];
            let p3 = Seq::<Seq<char>>::empty();
            assert(p.drop_first() =~= p1);
            assert(p1.drop_first() =~= p2);
            assert(p2.drop_first() =~= p3);
            assert(int_at(layer, p) == int_at(f, p1));
            match child(f, k) {
                Some(sv) => {
                    assert(int_at(f, p1) == int_at(sv, p2));
                    match child(sv, "value"@) {
                        Some(x) => {
                            assert(int_at(sv, p2) == int_at(x, p3));
                        },
                        None => {
                            assert(int_at(sv, p2) is None);
                        },
                    }
                },
                None => {
                    assert(int_at(f, p1) is None);
                },
            }
        }
        assert(filter_spec(f, "brightness"@) == as_i32(int_at(layer, seq!["filtersNEW"@, "brightness"@, "value"@])));
        assert(filter_spec(f, "contrast"@) == as_i32(int_at(layer, seq!["filtersNEW"@, "contrast"@, "value"@])));
        assert(filter_spec(f, "saturation"@) == as_i32(int_at(layer, seq!["filtersNEW"@, "saturation"@, "value"@])));
        assert(filter_spec(f, "blur"@) == as_i32(int_at(layer, seq!["filtersNEW"@, "blur"@, "value"@])));
        assert(filter_spec(f, "tintColor"@) == as_i32(int_at(layer, seq!["filtersNEW"@, "tintColor"@, "value"@])));
        assert(filter_spec(f, "tintAmount"@) == as_i32(int_at(layer, seq!["filtersNEW"@, "tintAmount"@, "value"@])));
    }
}

/// Where the connection entries lead, in order: each entry whose `target`
/// child is an object reference gives its street ID and label; the others
/// are left out.
pub open spec fn connections_spec(s: Seq<(String, XmlValue)>) -> Seq<(Seq<char>, Seq<char>)>
    decreases s.len(),
{
    if s.len() == 0 {
        Seq::empty()
    } else {
        let rest = connections_spec(s.drop_last());
        match child(s.last().1, "target"@) {
            Some(XmlValue::ObjRef { tsid, label }) => rest.push((tsid@, label@)),
            _ => rest,
        }
    }
}

/// The views of signpost connections.
pub open spec fn connections_view(v: Seq<SignpostConnection>) -> Seq<(Seq<char>, Seq<char>)> {
    v.map_values(|c: SignpostConnection| (c.target_tsid@, c.target_label@))
}

/// Where a signpost leads: its `connects` children, in order, that target
/// an object reference; none when it has no `connects` object.
pub fn signpost_connections(signpost: &XmlValue) -> (r: Vec<SignpostConnection>)
    ensures
        connections_view(r@) == (match child(*signpost, "connects"@) {
            Some(XmlValue::Object(m)) => connections_spec(m.entries@),
            _ => Seq::empty(),
        }),
{
    let mut out: Vec<SignpostConnection> = Vec::new();
    let conns = match signpost.get("connects") {
        Some(c) => c,
        None => {
            proof {
                assert(connections_view(out@) =~= Seq::<(Seq<char>, Seq<char>)>::empty());
            }
            return out;
        },
    };
    let m = match conns.as_object() {
        Some(m) => m,
        None => {
            proof {
                assert(connections_view(out@) =~= Seq::<(Seq<char>, Seq<char>)>::empty());
            }
            return out;
        },
    };
    let n = m.entries.len();
    let mut i: usize = 0;
    proof {
        assert(connections_view(out@) =~= connections_spec(m.entries@.take(0)));
    }
    while i < n
        invariant
            n == m.entries@.len(),
            i <= n,
            connections_view(out@) == connections_spec(m.entries@.take(i as int)),
        decreases n - i,
    {
        proof {
            assert(m.entries@.take(i + 1).drop_last() =~= m.entries@.take(i as int));
            assert(m.entries@.take(i + 1).last() == m.entries@[i as int]);
        }
        let ghost before = out@;
        match m.entries[i].1.get("target") {
            Some(XmlValue::ObjRef { tsid, label }) => {
                out.push(SignpostConnection { target_tsid: tsid.clone(), target_label: label.clone() });
                proof {
                    assert(connections_view(out@) =~= connections_view(before).push((tsid@, label@)));
                }
            },
            _ => {},
        }
        i = i + 1;
    }
    proof {
        assert(m.entries@.take(n as int) =~= m.entries@);
    }
    out
}

} // verus!
