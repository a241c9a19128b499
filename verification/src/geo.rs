//! Municipality boundary metadata.
//!
//! The boundary data set is GeoJSON: features carry a property map whose
//! keys name seven administrative fields, and the municipality's full name
//! is the concatenation of the first of them. This module holds the
//! verified metadata logic — decoding the property keys, composing the full
//! name, locating the prefecture data file and selecting the feature to
//! draw — while file reading and JSON decoding stay with the host
//! application, which hands the properties in as plain pairs.

use vstd::prelude::*;

use crate::error::Error;

verus! {

/// The named coordinate reference system property of a GeoJSON file.
#[derive(Clone, Debug)]
pub struct CrsProp {
    pub name: String,
}

/// The coordinate reference system object of a GeoJSON file.
#[derive(Clone, Debug)]
pub struct Crs {
    pub _type: String,
    pub properties: CrsProp,
}

/// Which property-array slot the digit of a well-formed key selects.
pub open spec fn digit_slot(c: char) -> Option<int> {
    if c == '1' {
        Some(0int)
    } else if c == '2' {
        Some(1int)
    } else if c == '3' {
        Some(2int)
    } else if c == '4' {
        Some(3int)
    } else if c == '5' {
        Some(4int)
    } else if c == '6' {
        Some(5int)
    } else if c == '7' {
        Some(6int)
    } else {
        None
    }
}

/// Which slot a property key selects: the keys are `N03_001` through
/// `N03_007`, and the final digit picks the slot. Any other key selects
/// nothing.
pub open spec fn key_slot(k: Seq<char>) -> Option<int> {
    if k.len() == 7 && k[0] == 'N' && k[1] == '0' && k[2] == '3' && k[3] == '_' && k[4] == '0'
        && k[5] == '0' {
        digit_slot(k[6])
    } else {
        None
    }
}

/// A property value as its view, `None` kept as `None`.
pub open spec fn opt_view(v: Option<String>) -> Option<Seq<char>> {
    match v {
        Some(s) => Some(s@),
        None => None,
    }
}

/// The value the property pairs leave in slot `s`: the value of the last
/// pair whose key selects `s`, or `None` when no pair does.
pub open spec fn slot_value(props: Seq<(String, Option<String>)>, s: int) -> Option<Seq<char>>
    decreases props.len(),
{
    if props.len() == 0 {
        None
    } else {
        let last = props[props.len() - 1];
        if key_slot(last.0@) == Some(s) {
            opt_view(last.1)
        } else {
            slot_value(props.drop_last(), s)
        }
    }
}

/// Decodes a feature's property pairs into the seven-slot array the name
/// composer reads: the key `N03_00d` fills slot `d - 1`.
///
/// Fails with `InvalidInput` exactly when some key is not of that form
/// (the boundary data set guarantees the form, so any other key is
/// malformed input).
pub fn geo_feature_props_to_array(props: &Vec<(String, Option<String>)>) -> (r: Result<
    [Option<String>; 7],
    Error,
>)
    ensures
        r is Err <==> exists|p: int|
            0 <= p < props@.len() && key_slot((#[trigger] props@[p]).0@) is None,
        r matches Ok(arr) ==> forall|s: int|
            0 <= s < 7 ==> opt_view(#[trigger] arr@[s]) == slot_value(props@, s),
{
    let mut result: [Option<String>; 7] = [None, None, None, None, None, None, None];
    let mut i: usize = 0;
    while i < props.len()
        invariant
            0 <= i <= props@.len(),
            result@.len() == 7,
            forall|p: int| 0 <= p < i ==> key_slot((#[trigger] props@[p]).0@) is Some,
            forall|s: int|
                0 <= s < 7 ==> opt_view(#[trigger] result@[s]) == slot_value(
                    props@.take(i as int),
                    s,
                ),
        decreases props@.len() - i,
    {
        let pair = &props[i];
        let slot = match key_slot_exec(pair.0.as_str()) {
            Some(s) => s,
            None => {
                return Err(Error::InvalidInput);
            },
        };
        let value = match &pair.1 {
            Some(v) => Some(v.clone()),
            None => None,
        };
        result[slot] = value;
        proof {
            assert(props@.take(i + 1).drop_last() =~= props@.take(i as int));
            assert(props@.take(i + 1).last() == props@[i as int]);
        }
        i += 1;
    }
    proof {
        assert(props@.take(props@.len() as int) =~= props@);
    }
    Ok(result)
}

/// The executable slot decoder, exactly `key_slot`.
fn key_slot_exec(k: &str) -> (r: Option<usize>)
    ensures
        match r {
            Some(s) => key_slot(k@) == Some(s as int) && s < 7,
            None => key_slot(k@) is None,
        },
{
    if k.unicode_len() != 7 {
        return None;
    }
    if !(k.get_char(0) == 'N' && k.get_char(1) == '0' && k.get_char(2) == '3' && k.get_char(3)
        == '_' && k.get_char(4) == '0' && k.get_char(5) == '0') {
        return None;
    }
    let d = k.get_char(6);
    if d == '1' {
        Some(0)
    } else if d == '2' {
        Some(1)
    } else if d == '3' {
        Some(2)
    } else if d == '4' {
        Some(3)
    } else if d == '5' {
        Some(4)
    } else if d == '6' {
        Some(5)
    } else if d == '7' {
        Some(6)
    } else {
        None
    }
}

/// Whether `s` names an ordinance-designated city: such a city's name in
/// slot 2 is dropped from the full name because slot 3 repeats it.
pub open spec fn is_designated_city(s: Seq<char>) -> bool {
    ||| s == "札幌市"@
    ||| s == "仙台市"@
    ||| s == "さいたま市"@
    ||| s == "千葉市"@
    ||| s == "横浜市"@
    ||| s == "川崎市"@
    ||| s == "相模原市"@
    ||| s == "静岡市"@
    ||| s == "浜松市"@
    ||| s == "名古屋市"@
    ||| s == "新潟市"@
    ||| s == "京都市"@
    ||| s == "大阪市"@
    ||| s == "堺市"@
    ||| s == "神戸市"@
    ||| s == "岡山市"@
    ||| s == "広島市"@
    ||| s == "北九州市"@
    ||| s == "福岡市"@
    ||| s == "熊本市"@
}

/// What slot `idx` contributes to the full name: its value, except that an
/// ordinance-designated city in slot 2 and every empty slot contribute
/// nothing.
pub open spec fn name_part(arr: Seq<Option<String>>, idx: int) -> Seq<char> {
    match arr[idx] {
        Some(s) => {
            if idx == 2 && is_designated_city(s@) {
                Seq::empty()
            } else {
                s@
            }
        },
        None => Seq::empty(),
    }
}

/// The concatenation of the first `j` slots' contributions.
pub open spec fn name_prefix(arr: Seq<Option<String>>, j: int) -> Seq<char>
    decreases j,
{
    if j <= 0 {
        Seq::empty()
    } else {
        name_prefix(arr, j - 1) + name_part(arr, j - 1)
    }
}

/// The municipality's full name: slots 0 through 5 concatenated (slot 6,
/// the area code, is not part of the name).
pub open spec fn muni_name(arr: Seq<Option<String>>) -> Seq<char> {
    name_prefix(arr, 6)
}

/// Composes the municipality's full name from its property array.
pub fn props_array_to_name(array: &[Option<String>; 7]) -> (r: String)
    ensures
        r@ == muni_name(array@),
{
    let mut out = String::new();
    let mut idx: usize = 0;
    while idx < 6
        invariant
            0 <= idx <= 6,
            array@.len() == 7,
            out@ == name_prefix(array@, idx as int),
        decreases 6 - idx,
    {
        match &array[idx] {
            Some(v) => {
                if idx == 2 && is_designated_city_exec(v) {
                } else {
                    out.append(v.as_str());
                }
            },
            None => {},
        }
        idx += 1;
    }
    out
}

/// String equality against a literal, by view.
fn str_eq(a: &String, lit: &str) -> (r: bool)
    ensures
        r == (a@ == lit@),
{
    let s = String::from_str(lit);
    a.eq(&s)
}

/// The executable test for an ordinance-designated city.
fn is_designated_city_exec(v: &String) -> (r: bool)
    ensures
        r == is_designated_city(v@),
{
    str_eq(v, "札幌市") || str_eq(v, "仙台市") || str_eq(v, "さいたま市") || str_eq(v, "千葉市")
        || str_eq(v, "横浜市") || str_eq(v, "川崎市") || str_eq(v, "相模原市") || str_eq(v, "静岡市")
        || str_eq(v, "浜松市") || str_eq(v, "名古屋市") || str_eq(v, "新潟市") || str_eq(v, "京都市")
        || str_eq(v, "大阪市") || str_eq(v, "堺市") || str_eq(v, "神戸市") || str_eq(v, "岡山市")
        || str_eq(v, "広島市") || str_eq(v, "北九州市") || str_eq(v, "福岡市") || str_eq(v, "熊本市")
}

/// The prefecture part of a full municipality name, as the fixed pattern
/// finds it: a two- or three-character non-ASCII run ending in 県, two
/// characters ending in 府, or one of the two literal names. The result is
/// a function of the name alone.
pub uninterp spec fn prefecture_match(s: Seq<char>) -> Option<Seq<char>>;

/// Relies on `regex::Regex::find` with the fixed prefecture pattern: it
/// returns the leftmost match in the haystack, a pure function of the
/// haystack, and `Match::as_str` hands that matched substring back.
#[verifier::external_body]
fn prefecture_of(name: &str) -> (r: Option<String>)
    ensures
        r is Some <==> prefecture_match(name@) is Some,
        r matches Some(p) ==> prefecture_match(name@) == Some(p@),
{
    let re = regex::Regex::new("([^\\x00-\\x7F]{2,3}県|..府|東京都|北海道)").unwrap();
    re.find(name).map(|m| m.as_str().to_string())
}

/// Locates the prefecture data file that serves a municipality: the index
/// of the first prefecture list entry equal to the name's prefecture part.
/// `None` when the name holds no prefecture or the list lacks it (the
/// boundary reader then has no file to open).
pub fn prefecture_id(prefectures: &Vec<String>, muni_name: &str) -> (r: Option<usize>)
    ensures
        match r {
            Some(i) => {
                &&& prefecture_match(muni_name@) is Some
                &&& 0 <= i < prefectures@.len()
                &&& prefectures@[i as int]@ == prefecture_match(muni_name@).unwrap()
                &&& forall|j: int|
                    0 <= j < i ==> (#[trigger] prefectures@[j])@ != prefecture_match(
                        muni_name@,
                    ).unwrap()
            },
            None => prefecture_match(muni_name@) is None || forall|j: int|
                0 <= j < prefectures@.len() ==> (#[trigger] prefectures@[j])@ != prefecture_match(
                    muni_name@,
                ).unwrap(),
        },
{
    let pref = match prefecture_of(muni_name) {
        Some(p) => p,
        None => {
            return None;
        },
    };
    let mut i: usize = 0;
    while i < prefectures.len()
        invariant
            0 <= i <= prefectures@.len(),
            prefecture_match(muni_name@) == Some(pref@),
            forall|j: int| 0 <= j < i ==> (#[trigger] prefectures@[j])@ != pref@,
        decreases prefectures@.len() - i,
    {
        if prefectures[i].eq(&pref) {
            return Some(i);
        }
        i += 1;
    }
    None
}

/// Selects which feature of a prefecture file to draw for a municipality:
/// among the features whose composed name equals the target, the one with
/// the most boundary coordinates, the last such on ties. `names` and
/// `coord_counts` are the features' composed names and coordinate counts,
/// in file order.
pub fn select_boundary_feature(
    names: &Vec<String>,
    coord_counts: &Vec<usize>,
    target: &String,
) -> (r: Option<usize>)
    requires
        names@.len() == coord_counts@.len(),
    ensures
        match r {
            Some(i) => {
                &&& 0 <= i < names@.len()
                &&& names@[i as int]@ == target@
                &&& forall|j: int|
                    0 <= j < names@.len() && (#[trigger] names@[j])@ == target@
                        ==> coord_counts@[j] <= coord_counts@[i as int]
                &&& forall|j: int|
                    i < j < names@.len() && (#[trigger] names@[j])@ == target@
                        ==> coord_counts@[j] < coord_counts@[i as int]
            },
            None => forall|j: int| 0 <= j < names@.len() ==> (#[trigger] names@[j])@ != target@,
        },
{
    let mut best: Option<usize> = None;
    let mut j: usize = 0;
    while j < names.len()
        invariant
            0 <= j <= names@.len(),
            names@.len() == coord_counts@.len(),
            match best {
                Some(i) => {
                    &&& 0 <= i < j
                    &&& names@[i as int]@ == target@
                    &&& forall|q: int|
                        0 <= q < j && (#[trigger] names@[q])@ == target@ ==> coord_counts@[q]
                            <= coord_counts@[i as int]
                    &&& forall|q: int|
                        i < q < j && (#[trigger] names@[q])@ == target@ ==> coord_counts@[q]
                            < coord_counts@[i as int]
                },
                None => forall|q: int| 0 <= q < j ==> (#[trigger] names@[q])@ != target@,
            },
        decreases names@.len() - j,
    {
        if names[j].eq(target) {
            let cnt = coord_counts[j];
            best = match best {
                Some(i) => {
                    if cnt >= coord_counts[i] {
                        Some(j)
                    } else {
                        Some(i)
                    }
                },
                None => Some(j),
            };
        }
        j += 1;
    }
    best
}

} // verus!
