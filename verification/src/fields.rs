use vstd::prelude::*;

use crate::parsing::ParseError;
use crate::scalars::{
    decimal_text_ok, i64_text_ok, i8_text_ok, int_text_val, is_decimal_text, parse_i64, parse_i8,
};
use crate::text::{has_prefix, split_on_spec, starts_with, strip_prefix_chars};

verus! {

/// Semantic type of one declared metadata field.
#[derive(Clone, Copy, Debug, PartialEq, Eq, Structural)]
pub enum FieldType {
    /// The raw text after the key.
    Text,
    /// A 64-bit signed integer.
    Int64,
    /// An 8-bit signed integer.
    Int8,
    /// A decimal number, kept as its validated text.
    Decimal,
}

/// A decoded scalar value of one metadata field.
#[derive(Debug, Clone, PartialEq)]
pub enum FieldValue {
    Text(String),
    Int64(i64),
    Int8(i8),
    Decimal(String),
}

/// Mathematical image of a [`FieldValue`].
pub enum FieldValueView {
    Text(Seq<char>),
    Int64(int),
    Int8(int),
    Decimal(Seq<char>),
}

impl DeepView for FieldValue {
    type V = FieldValueView;

    open spec fn deep_view(&self) -> FieldValueView {
        match self {
            FieldValue::Text(s) => FieldValueView::Text(s@),
            FieldValue::Int64(n) => FieldValueView::Int64(*n as int),
            FieldValue::Int8(n) => FieldValueView::Int8(*n as int),
            FieldValue::Decimal(s) => FieldValueView::Decimal(s@),
        }
    }
}

/// One declared field of a metadata record: its name, its semantic type, and
/// either an explicit lookup key or the rule "derive the key from the name".
pub struct FieldSpec {
    pub name: String,
    pub key: Option<String>,
    pub ty: FieldType,
}

/// Mathematical image of a [`FieldSpec`].
pub struct FieldSpecView {
    pub name: Seq<char>,
    pub key: Option<Seq<char>>,
    pub ty: FieldType,
}

impl DeepView for FieldSpec {
    type V = FieldSpecView;

    open spec fn deep_view(&self) -> FieldSpecView {
        FieldSpecView {
            name: self.name@,
            key: match self.key {
                Some(k) => Some(k@),
                None => None,
            },
            ty: self.ty,
        }
    }
}

/// A lower-case ASCII letter.
pub open spec fn is_lower(c: char) -> bool {
    97 <= c as u32 <= 122
}

/// An identifier of lower-case words separated by single underscores.
pub open spec fn is_snake_ident(s: Seq<char>) -> bool {
    &&& s.len() > 0
    &&& s[0] != '_'
    &&& s[s.len() - 1] != '_'
    &&& forall|i: int| 0 <= i < s.len() ==> is_lower(#[trigger] s[i]) || s[i] == '_'
    &&& forall|i: int| 0 <= i < s.len() - 1 ==> !((#[trigger] s[i]) == '_' && s[i + 1] == '_')
}

/// The upper-case counterpart of a lower-case ASCII letter.
pub open spec fn upper_char(c: char) -> char {
    if is_lower(c) {
        ((c as u32) - 32) as char
    } else {
        c
    }
}

/// A word with its first character capitalized.
pub open spec fn capitalize(w: Seq<char>) -> Seq<char> {
    if w.len() == 0 {
        w
    } else {
        seq![upper_char(w[0])] + w.skip(1)
    }
}

/// PascalCase derivation from a snake-case identifier: each underscore-
/// separated word capitalized, concatenated without separators.
pub open spec fn pascal_of_snake(s: Seq<char>) -> Seq<char> {
    split_on_spec(s, '_').map_values(|w: Seq<char>| capitalize(w)).flatten()
}

/// Whether the text is a snake-case identifier.
pub fn is_snake(s: &str) -> (b: bool)
    ensures
        b == is_snake_ident(s@),
{
    let len: usize = s.unicode_len();
    if len == 0 {
        return false;
    }
    let mut i: usize = 0;
    let mut prev_underscore: bool = false;
    while i < len
        invariant
            0 < len == s@.len(),
            i <= len,
            i > 0 ==> s@[0] != '_',
            forall|j: int| 0 <= j < i ==> is_lower(#[trigger] s@[j]) || s@[j] == '_',
            forall|j: int| 0 <= j < i - 1 ==> !((#[trigger] s@[j]) == '_' && s@[j + 1] == '_'),
            prev_underscore == (i > 0 && s@[i - 1] == '_'),
        decreases len - i,
    {
        let c: char = s.get_char(i);
        if c == '_' {
            if i == 0 {
                return false;
            }
            if prev_underscore {
                return false;
            }
            prev_underscore = true;
        } else {
            let cv: u32 = c as u32;
            if cv < 97 || cv > 122 {
                return false;
            }
            prev_underscore = false;
        }
        i = i + 1;
    }
    if prev_underscore {
        return false;
    }
    true
}

/// Relies on `convert_case::Casing::to_case` with `Case::Pascal`: an
/// identifier made of lower-case ASCII words separated by single underscores
/// is split at the underscores, each word is capitalized, and the words are
/// concatenated without separators.
#[verifier::external_body]
fn pascal_key(name: &str) -> (r: String)
    requires
        is_snake_ident(name@),
    ensures
        r@ == pascal_of_snake(name@),
{
    convert_case::Casing::to_case(&name, convert_case::Case::Pascal)
}

/// The `"<key>: "` prefix that marks a metadata line as belonging to `key`.
pub open spec fn key_prefix(key: Seq<char>) -> Seq<char> {
    key + seq![':', ' ']
}

/// Value of the first line that starts with `"<key>: "`, with that prefix
/// removed; `None` when no line carries the key.
pub open spec fn find_value(lines: Seq<Seq<char>>, key: Seq<char>) -> Option<Seq<char>>
    decreases lines.len(),
{
    if lines.len() == 0 {
        None
    } else if has_prefix(lines[0], key_prefix(key)) {
        Some(lines[0].skip(key.len() as int + 2))
    } else {
        find_value(lines.skip(1), key)
    }
}

proof fn lemma_find_value_hit(lines: Seq<Seq<char>>, key: Seq<char>, i: int)
    requires
        0 <= i < lines.len(),
        has_prefix(lines[i], key_prefix(key)),
        forall|j: int| 0 <= j < i ==> !has_prefix(#[trigger] lines[j], key_prefix(key)),
    ensures
        find_value(lines, key) == Some(lines[i].skip(key.len() as int + 2)),
    decreases i,
{
    if i == 0 {
    } else {
        assert(!has_prefix(lines[0], key_prefix(key)));
        let t = lines.skip(1);
        assert(t[i - 1] == lines[i]);
        assert(forall|j: int| 0 <= j < i - 1 ==> t[j] == lines[j + 1]);
        lemma_find_value_hit(t, key, i - 1);
    }
}

proof fn lemma_find_value_miss(lines: Seq<Seq<char>>, key: Seq<char>)
    requires
        forall|j: int| 0 <= j < lines.len() ==> !has_prefix(#[trigger] lines[j], key_prefix(key)),
    ensures
        find_value(lines, key) is None,
    decreases lines.len(),
{
    if lines.len() == 0 {
    } else {
        let t = lines.skip(1);
        assert(forall|j: int| 0 <= j < t.len() ==> t[j] == lines[j + 1]);
        lemma_find_value_miss(t, key);
    }
}

/// First line satisfying the given test, if any; the scan is in order, so an
/// earlier matching line always wins over a later one.
pub fn read_value<F: Fn(&String) -> bool>(lines: Vec<String>, closure: F) -> (r: Option<String>)
    requires
        forall|x: &String| #[trigger] call_requires(closure, (x,)),
    ensures
        match r {
            Some(v) => exists|i: int|
                0 <= i < lines@.len() && #[trigger] lines@[i] == v && call_ensures(
                    closure,
                    (&lines@[i],),
                    true,
                ) && forall|j: int| 0 <= j < i ==> call_ensures(closure, (&lines@[j],), false),
            None => forall|j: int|
                0 <= j < lines@.len() ==> call_ensures(closure, (&lines@[j],), false),
        },
{
    let mut i: usize = 0;
    while i < lines.len()
        invariant
            i <= lines@.len(),
            forall|x: &String| #[trigger] call_requires(closure, (x,)),
            forall|j: int| 0 <= j < i ==> call_ensures(closure, (&lines@[j],), false),
        decreases lines@.len() - i,
    {
        let x: &String = &lines[i];
        let b: bool = closure(x);
        if b {
            return Some(lines[i].clone());
        }
        i = i + 1;
    }
    None
}

/// First metadata value carried under `key`, located by [`read_value`] and
/// returned with its `"<key>: "` prefix removed.
pub fn find_value_exec(lines: &Vec<String>, key: &str) -> (r: Option<String>)
    ensures
        match r {
            Some(v) => find_value(lines.deep_view(), key@) == Some(v@),
            None => find_value(lines.deep_view(), key@) is None,
        },
{
    let klen: usize = key.unicode_len();
    let mut prefix: String = key.to_owned();
    prefix.append(": ");
    proof {
        reveal_strlit(": ");
        assert(prefix@ =~= key_prefix(key@));
    }
    let plen: usize = prefix.as_str().unicode_len();
    let cl: Vec<String> = lines.clone();
    proof {
        assert forall|i: int| 0 <= i < cl@.len() implies cl@[i] == lines@[i] by {
            assert(cloned::<String>(lines@[i], cl@[i]));
        }
        assert(cl@ =~= lines@);
        assert(cl.deep_view() =~= lines.deep_view());
    }
    let pref: &String = &prefix;
    let f = |x: &String| -> (b: bool)
        ensures
            b == has_prefix(x@, key_prefix(key@)),
        { starts_with(x.as_str(), pref.as_str()) };
    let r = read_value(cl, f);
    match r {
        Some(v) => {
            proof {
                let i = choose|i: int|
                    0 <= i < cl@.len() && #[trigger] cl@[i] == v && call_ensures(
                        f,
                        (&cl@[i],),
                        true,
                    ) && forall|j: int| 0 <= j < i ==> call_ensures(f, (&cl@[j],), false);
                assert(has_prefix(lines.deep_view()[i], key_prefix(key@)));
                assert forall|j: int| 0 <= j < i implies !has_prefix(
                    #[trigger] lines.deep_view()[j],
                    key_prefix(key@),
                ) by {
                    assert(call_ensures(f, (&cl@[j],), false));
                }
                lemma_find_value_hit(lines.deep_view(), key@, i);
                assert(v@.len() >= plen);
                assert(plen == klen + 2);
            }
            let stripped: String = strip_prefix_chars(&v, plen);
            Some(stripped)
        },
        None => {
            proof {
                assert forall|j: int| 0 <= j < lines.deep_view().len() implies !has_prefix(
                    #[trigger] lines.deep_view()[j],
                    key_prefix(key@),
                ) by {
                    assert(call_ensures(f, (&cl@[j],), false));
                }
                lemma_find_value_miss(lines.deep_view(), key@);
            }
            None
        },
    }
}

/// Decoded value of one declared field against a section's lines: the lookup
/// key is the explicit one, or is derived from a snake-case field name; a
/// missing key yields `None`, a present key with malformed text fails.
pub open spec fn decode_field_spec(sp: FieldSpecView, lines: Seq<Seq<char>>) -> Result<
    Option<FieldValueView>,
    (),
> {
    match sp.key {
        Some(k) => decode_with_key(k, sp.ty, lines),
        None => if is_snake_ident(sp.name) {
            decode_with_key(pascal_of_snake(sp.name), sp.ty, lines)
        } else {
            Err(())
        },
    }
}

/// Decoded value of one field under an already-resolved lookup key.
pub open spec fn decode_with_key(key: Seq<char>, ty: FieldType, lines: Seq<Seq<char>>) -> Result<
    Option<FieldValueView>,
    (),
> {
    match find_value(lines, key) {
        None => Ok(None),
        Some(v) => match ty {
            FieldType::Text => Ok(Some(FieldValueView::Text(v))),
            FieldType::Int64 => if i64_text_ok(v) {
                Ok(Some(FieldValueView::Int64(int_text_val(v))))
            } else {
                Err(())
            },
            FieldType::Int8 => if i8_text_ok(v) {
                Ok(Some(FieldValueView::Int8(int_text_val(v))))
            } else {
                Err(())
            },
            FieldType::Decimal => if decimal_text_ok(v) {
                Ok(Some(FieldValueView::Decimal(v)))
            } else {
                Err(())
            },
        },
    }
}

/// Decode one declared field from the section's lines.
pub fn decode_field(sp: &FieldSpec, section: &Vec<String>) -> (r: Result<
    Option<FieldValue>,
    ParseError,
>)
    ensures
        match r {
            Ok(ov) => decode_field_spec(sp.deep_view(), section.deep_view()) == Ok::<Option<FieldValueView>, ()>(ov.deep_view()),
            Err(_) => decode_field_spec(sp.deep_view(), section.deep_view()) is Err,
        },
{
    let key: String = match &sp.key {
        Some(k) => k.clone(),
        None => {
            if is_snake(sp.name.as_str()) {
                pascal_key(sp.name.as_str())
            } else {
                return Err(ParseError);
            }
        },
    };
    match find_value_exec(section, key.as_str()) {
        None => Ok(None),
        Some(v) => match sp.ty {
            FieldType::Text => Ok(Some(FieldValue::Text(v))),
            FieldType::Int64 => match parse_i64(v.as_str()) {
                Ok(n) => Ok(Some(FieldValue::Int64(n))),
                Err(_) => Err(ParseError),
            },
            FieldType::Int8 => match parse_i8(v.as_str()) {
                Ok(n) => Ok(Some(FieldValue::Int8(n))),
                Err(_) => Err(ParseError),
            },
            FieldType::Decimal => {
                if is_decimal_text(v.as_str()) {
                    Ok(Some(FieldValue::Decimal(v)))
                } else {
                    Err(ParseError)
                }
            },
        },
    }
}

/// Decoded values of the fields from position `k` on, in declaration order,
/// stopping at the first failing field.
pub open spec fn decode_from(
    specs: Seq<FieldSpecView>,
    lines: Seq<Seq<char>>,
    k: int,
) -> Result<Seq<Option<FieldValueView>>, ()>
    decreases specs.len() - k,
{
    if k < 0 || k >= specs.len() {
        Ok(Seq::empty())
    } else {
        match decode_field_spec(specs[k], lines) {
            Err(()) => Err(()),
            Ok(ov) => match decode_from(specs, lines, k + 1) {
                Err(()) => Err(()),
                Ok(rest) => Ok(seq![ov] + rest),
            },
        }
    }
}

/// Decoded values of all declared fields, in declaration order, failing fast
/// at the first field whose present value is malformed.
pub open spec fn decode_fields_spec(specs: Seq<FieldSpecView>, lines: Seq<Seq<char>>) -> Result<
    Seq<Option<FieldValueView>>,
    (),
> {
    decode_from(specs, lines, 0)
}

/// Decode every declared field of a metadata section, left to right,
/// failing fast on the first malformed present value.
pub fn decode_fields(specs: &Vec<FieldSpec>, section: &Vec<String>) -> (r: Result<
    Vec<Option<FieldValue>>,
    ParseError,
>)
    ensures
        match r {
            Ok(vals) => decode_fields_spec(specs.deep_view(), section.deep_view())
                == Ok::<Seq<Option<FieldValueView>>, ()>(vals.deep_view()),
            Err(_) => decode_fields_spec(specs.deep_view(), section.deep_view()) is Err,
        },
{
    let ghost gspecs = specs.deep_view();
    let ghost glines = section.deep_view();
    let mut out: Vec<Option<FieldValue>> = Vec::new();
    let mut k: usize = 0;
    proof {
        assert(out.deep_view() =~= Seq::<Option<FieldValueView>>::empty());
    }
    while k < specs.len()
        invariant
            k <= specs@.len(),
            gspecs == specs.deep_view(),
            glines == section.deep_view(),
            gspecs.len() == specs@.len(),
            out@.len() == k,
            match decode_from(gspecs, glines, k as int) {
                Ok(rest) => decode_from(gspecs, glines, 0) == Ok::<Seq<Option<FieldValueView>>, ()>(out.deep_view() + rest),
                Err(_) => decode_from(gspecs, glines, 0) is Err,
            },
        decreases specs@.len() - k,
    {
        let ghost old_dv = out.deep_view();
        match decode_field(&specs[k], section) {
            Ok(ov) => {
                proof {
                    assert(specs@[k as int].deep_view() == gspecs[k as int]);
                }
                out.push(ov);
                proof {
                    assert(out.deep_view() =~= old_dv.push(ov.deep_view()));
                    match decode_from(gspecs, glines, k + 1 as int) {
                        Ok(rest) => {
                            assert(decode_from(gspecs, glines, k as int) == Ok::<
                                Seq<Option<FieldValueView>>,
                                (),
                            >(seq![ov.deep_view()] + rest));
                            assert(old_dv + (seq![ov.deep_view()] + rest) =~= out.deep_view()
                                + rest);
                        },
                        Err(()) => {
                            assert(decode_from(gspecs, glines, k as int) is Err);
                        },
                    }
                }
            },
            Err(_) => {
                proof {
                    assert(specs@[k as int].deep_view() == gspecs[k as int]);
                    assert(decode_from(gspecs, glines, k as int) is Err);
                }
                return Err(ParseError);
            },
        }
        k = k + 1;
    }
    proof {
        assert(out.deep_view() + Seq::<Option<FieldValueView>>::empty() =~= out.deep_view());
    }
    Ok(out)
}

/// The decoded value of a field, when present, carries the variant that the
/// field's declared type selects.
pub open spec fn value_matches_type(v: Option<FieldValueView>, ty: FieldType) -> bool {
    match v {
        None => true,
        Some(FieldValueView::Text(_)) => ty == FieldType::Text,
        Some(FieldValueView::Int64(_)) => ty == FieldType::Int64,
        Some(FieldValueView::Int8(_)) => ty == FieldType::Int8,
        Some(FieldValueView::Decimal(_)) => ty == FieldType::Decimal,
    }
}

/// A successful decode yields one value per remaining field, each carrying
/// the variant of its field's declared type.
pub proof fn lemma_decode_from_types(specs: Seq<FieldSpecView>, lines: Seq<Seq<char>>, k: int)
    requires
        0 <= k <= specs.len(),
    ensures
        match decode_from(specs, lines, k) {
            Ok(vals) => vals.len() == specs.len() - k && forall|t: int|
                0 <= t < vals.len() ==> value_matches_type(#[trigger] vals[t], specs[k + t].ty),
            Err(_) => true,
        },
    decreases specs.len() - k,
{
    if k >= specs.len() {
    } else {
        lemma_decode_from_types(specs, lines, k + 1);
        match decode_field_spec(specs[k], lines) {
            Err(()) => {},
            Ok(ov) => {
                assert(value_matches_type(ov, specs[k].ty));
                match decode_from(specs, lines, k + 1) {
                    Err(()) => {},
                    Ok(rest) => {
                        let vals = seq![ov] + rest;
                        assert forall|t: int| 0 <= t < vals.len() implies value_matches_type(
                            #[trigger] vals[t],
                            specs[k + t].ty,
                        ) by {
                            if t > 0 {
                                assert(vals[t] == rest[t - 1]);
                            }
                        }
                    },
                }
            },
        }
    }
}


/// A field declaration is well formed: it carries an explicit lookup key, or
/// its name is a snake-case identifier the key can be derived from.
pub open spec fn field_wf(sp: FieldSpecView) -> bool {
    sp.key is Some || is_snake_ident(sp.name)
}

/// The lookup key of a well-formed field: the explicit key, or the
/// PascalCase derivation of the field's name.
pub open spec fn lookup_key_of(sp: FieldSpecView) -> Seq<char> {
    match sp.key {
        Some(k) => k,
        None => pascal_of_snake(sp.name),
    }
}

/// The found text parses as the field's declared type.
pub open spec fn parses_as(v: Seq<char>, ty: FieldType) -> bool {
    match ty {
        FieldType::Text => true,
        FieldType::Int64 => i64_text_ok(v),
        FieldType::Int8 => i8_text_ok(v),
        FieldType::Decimal => decimal_text_ok(v),
    }
}

/// The value the found text decodes to under the field's declared type.
pub open spec fn parsed_value(v: Seq<char>, ty: FieldType) -> FieldValueView {
    match ty {
        FieldType::Text => FieldValueView::Text(v),
        FieldType::Int64 => FieldValueView::Int64(int_text_val(v)),
        FieldType::Int8 => FieldValueView::Int8(int_text_val(v)),
        FieldType::Decimal => FieldValueView::Decimal(v),
    }
}

proof fn lemma_decode_empty_from(specs: Seq<FieldSpecView>, k: int)
    requires
        0 <= k <= specs.len(),
        forall|j: int| 0 <= j < specs.len() ==> field_wf(#[trigger] specs[j]),
    ensures
        decode_from(specs, Seq::empty(), k) == Ok::<Seq<Option<FieldValueView>>, ()>(
            Seq::new((specs.len() - k) as nat, |t: int| None),
        ),
    decreases specs.len() - k,
{
    if k == specs.len() {
        assert(Seq::new(0, |t: int| None::<FieldValueView>) =~= Seq::empty());
    } else {
        assert(field_wf(specs[k]));
        assert(decode_field_spec(specs[k], Seq::empty()) == Ok::<Option<FieldValueView>, ()>(
            None,
        ));
        lemma_decode_empty_from(specs, k + 1);
        assert(seq![None::<FieldValueView>] + Seq::new(
            (specs.len() - k - 1) as nat,
            |t: int| None::<FieldValueView>,
        ) =~= Seq::new((specs.len() - k) as nat, |t: int| None::<FieldValueView>));
    }
}

/// Law: decoding an empty line list succeeds and yields `None` for every
/// declared field — a missing key is never a failure.  It holds of every
/// well-formed field table.
pub proof fn lemma_decode_empty_lines(specs: Seq<FieldSpecView>)
    requires
        forall|j: int| 0 <= j < specs.len() ==> field_wf(#[trigger] specs[j]),
    ensures
        decode_fields_spec(specs, Seq::empty()) == Ok::<Seq<Option<FieldValueView>>, ()>(
            Seq::new(specs.len(), |t: int| None),
        ),
{
    lemma_decode_empty_from(specs, 0);
}

proof fn lemma_decode_all_present_from(specs: Seq<FieldSpecView>, lines: Seq<Seq<char>>, k: int)
    requires
        0 <= k <= specs.len(),
        forall|j: int| 0 <= j < specs.len() ==> field_wf(#[trigger] specs[j]),
        forall|j: int|
            0 <= j < specs.len() ==> find_value(lines, lookup_key_of(#[trigger] specs[j])) is Some,
        forall|j: int|
            0 <= j < specs.len() ==> parses_as(
                find_value(lines, lookup_key_of(#[trigger] specs[j])).unwrap(),
                specs[j].ty,
            ),
    ensures
        decode_from(specs, lines, k) == Ok::<Seq<Option<FieldValueView>>, ()>(
            Seq::new(
                (specs.len() - k) as nat,
                |t: int| Some(
                    parsed_value(
                        find_value(lines, lookup_key_of(specs[k + t])).unwrap(),
                        specs[k + t].ty,
                    ),
                ),
            ),
        ),
    decreases specs.len() - k,
{
    if k == specs.len() {
        assert(Seq::new(0, |t: int| Some(parsed_value(
            find_value(lines, lookup_key_of(specs[k + t])).unwrap(),
            specs[k + t].ty,
        ))) =~= Seq::empty());
    } else {
        assert(field_wf(specs[k]));
        let v = find_value(lines, lookup_key_of(specs[k])).unwrap();
        assert(parses_as(v, specs[k].ty));
        assert(decode_field_spec(specs[k], lines) == Ok::<Option<FieldValueView>, ()>(
            Some(parsed_value(v, specs[k].ty)),
        ));
        lemma_decode_all_present_from(specs, lines, k + 1);
        assert(seq![Some(parsed_value(v, specs[k].ty))] + Seq::new(
            (specs.len() - k - 1) as nat,
            |t: int| Some(
                parsed_value(
                    find_value(lines, lookup_key_of(specs[k + 1 + t])).unwrap(),
                    specs[k + 1 + t].ty,
                ),
            ),
        ) =~= Seq::new(
            (specs.len() - k) as nat,
            |t: int| Some(
                parsed_value(
                    find_value(lines, lookup_key_of(specs[k + t])).unwrap(),
                    specs[k + t].ty,
                ),
            ),
        ));
    }
}

/// Law: when every declared field's key is found among the lines and every
/// found value parses as its field's declared type, the decode succeeds and
/// yields `Some` of the parsed value for every field, in declaration order.
/// It holds of every well-formed field table.
pub proof fn lemma_decode_all_present(specs: Seq<FieldSpecView>, lines: Seq<Seq<char>>)
    requires
        forall|j: int| 0 <= j < specs.len() ==> field_wf(#[trigger] specs[j]),
        forall|j: int|
            0 <= j < specs.len() ==> find_value(lines, lookup_key_of(#[trigger] specs[j])) is Some,
        forall|j: int|
            0 <= j < specs.len() ==> parses_as(
                find_value(lines, lookup_key_of(#[trigger] specs[j])).unwrap(),
                specs[j].ty,
            ),
    ensures
        decode_fields_spec(specs, lines) == Ok::<Seq<Option<FieldValueView>>, ()>(
            Seq::new(
                specs.len(),
                |t: int| Some(
                    parsed_value(
                        find_value(lines, lookup_key_of(specs[t])).unwrap(),
                        specs[t].ty,
                    ),
                ),
            ),
        ),
{
    lemma_decode_all_present_from(specs, lines, 0);
    assert(Seq::new(
        (specs.len() - 0) as nat,
        |t: int| Some(
            parsed_value(find_value(lines, lookup_key_of(specs[0 + t])).unwrap(), specs[0 + t].ty),
        ),
    ) =~= Seq::new(
        specs.len(),
        |t: int| Some(
            parsed_value(find_value(lines, lookup_key_of(specs[t])).unwrap(), specs[t].ty),
        ),
    ));
}

proof fn lemma_unparsable_from(specs: Seq<FieldSpecView>, lines: Seq<Seq<char>>, j: int, k: int)
    requires
        0 <= j <= k < specs.len(),
        forall|t: int| 0 <= t < k ==> decode_field_spec(#[trigger] specs[t], lines) is Ok,
        field_wf(specs[k]),
        find_value(lines, lookup_key_of(specs[k])) is Some,
        !parses_as(find_value(lines, lookup_key_of(specs[k])).unwrap(), specs[k].ty),
    ensures
        decode_from(specs, lines, j) is Err,
    decreases k - j,
{
    if j == k {
        assert(decode_field_spec(specs[k], lines) is Err);
    } else {
        lemma_unparsable_from(specs, lines, j + 1, k);
    }
}

/// Law: a field whose key is present in the lines but whose value does not
/// parse as the field's declared type fails the whole decode — it is never
/// silently treated as an absent field — provided no earlier field already
/// failed.
pub proof fn lemma_unparsable_value_fails(
    specs: Seq<FieldSpecView>,
    lines: Seq<Seq<char>>,
    k: int,
)
    requires
        0 <= k < specs.len(),
        forall|t: int| 0 <= t < k ==> decode_field_spec(#[trigger] specs[t], lines) is Ok,
        field_wf(specs[k]),
        find_value(lines, lookup_key_of(specs[k])) is Some,
        !parses_as(find_value(lines, lookup_key_of(specs[k])).unwrap(), specs[k].ty),
    ensures
        decode_fields_spec(specs, lines) is Err,
{
    lemma_unparsable_from(specs, lines, 0, k);
}


} // verus!
