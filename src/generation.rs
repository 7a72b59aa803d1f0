use vstd::prelude::*;
use vstd::string::StringExecFns;
use crate::formatting::{format_type_to_ts_string, render};
use crate::inference::{infer_shape, JsonValue};
use crate::keys::{compare_keys, key_lt};
use crate::laws::{lemma_infer_never_free, lemma_merge_never_free};
use crate::merge::{merge_shapes, merge_types};
use crate::types::{InferredType, InputData, PrimitiveType, Shape};

verus! {

#[verifier::external_type_specification]
#[verifier::external_body]
pub struct ExJsonValue(serde_json::Value);

/// What serde_json decodes a text to; `None` where it fails: the text is not
/// JSON, or nests deeper than serde_json's recursion limit.
pub uninterp spec fn json_decode(text: Seq<char>) -> Option<JsonValue>;

/// What stringcase makes of a name in pascal case.
pub uninterp spec fn pascal_of(name: Seq<char>) -> Seq<char>;

/// Relies on serde_json::from_str::<serde_json::Value>: it decodes one JSON
/// text, and what it returns depends on the text alone.
#[verifier::external_body]
fn decode_json(text: &str) -> (r: Option<JsonValue>)
    ensures
        r == json_decode(text@),
{
    serde_json::from_str::<serde_json::Value>(text).ok().map(from_serde)
}

/// Carries each variant of serde_json::Value over to the same variant of
/// `JsonValue`, keeping strings, elements and members in order.
#[verifier::external_body]
fn from_serde(v: serde_json::Value) -> JsonValue {
    match v {
        serde_json::Value::Null => JsonValue::Null,
        serde_json::Value::Bool(b) => JsonValue::Bool(b),
        serde_json::Value::Number(_) => JsonValue::Number,
        serde_json::Value::String(s) => JsonValue::Str(s),
        serde_json::Value::Array(a) => JsonValue::Array(a.into_iter().map(from_serde).collect()),
        serde_json::Value::Object(o) => JsonValue::Object(
            o.into_iter().map(|(k, x)| (k, from_serde(x))).collect(),
        ),
    }
}

/// Relies on stringcase::pascal_case: what it returns depends on the name
/// alone.
#[verifier::external_body]
fn pascal(name: &str) -> (r: String)
    ensures
        r@ == pascal_of(name@),
{
    stringcase::pascal_case(name)
}

/// The content of a sample after decoding: a JSON value, or the raw text
/// that did not decode.
pub enum SampleContent {
    Valid(JsonValue),
    Invalid(String),
}

impl SampleContent {
    /// The decoded value, or the raw text that did not decode.
    pub open spec fn outcome(&self) -> Result<JsonValue, Seq<char>> {
        match self {
            SampleContent::Valid(v) => Ok(*v),
            SampleContent::Invalid(s) => Err(s@),
        }
    }
}

/// A sample whose content has been decoded.
pub struct DecodedSample {
    pub category: String,
    pub content: SampleContent,
}

/// Decodes a content text once, and once more when that yields a JSON
/// string; where either decoding fails, the raw content text is kept.
pub open spec fn decode_content(text: Seq<char>) -> Result<JsonValue, Seq<char>> {
    match json_decode(text) {
        None => Err(text),
        Some(JsonValue::Str(inner)) => match json_decode(inner@) {
            None => Err(text),
            Some(v) => Ok(v),
        },
        Some(v) => Ok(v),
    }
}

/// What is known of one category so far.
pub enum GroupState {
    /// All its samples decoded; the merge of their shapes.
    Typed(Shape),
    /// Some sample did not decode; the raw content of the first such sample.
    Invalid(Seq<char>),
}

/// The state of a category after its first sample.
pub open spec fn start_state(c: Result<JsonValue, Seq<char>>) -> GroupState {
    match c {
        Ok(v) => GroupState::Typed(merge_shapes(Shape::Never, infer_shape(v))),
        Err(raw) => GroupState::Invalid(raw),
    }
}

/// The state of a category after one more sample: an invalid sample makes
/// it invalid for good, keeping the first raw text; a valid one is merged in.
pub open spec fn next_state(st: GroupState, c: Result<JsonValue, Seq<char>>) -> GroupState {
    match st {
        GroupState::Invalid(raw) => GroupState::Invalid(raw),
        GroupState::Typed(t) => match c {
            Ok(v) => GroupState::Typed(merge_shapes(t, infer_shape(v))),
            Err(raw) => GroupState::Invalid(raw),
        },
    }
}

/// Adds one sample to groups kept sorted by category.
pub open spec fn add_sample(
    gs: Seq<(Seq<char>, GroupState)>,
    cat: Seq<char>,
    c: Result<JsonValue, Seq<char>>,
) -> Seq<(Seq<char>, GroupState)>
    decreases gs.len(),
{
    if gs.len() == 0 {
        seq![(cat, start_state(c))]
    } else if key_lt(cat, gs[0].0) {
        seq![(cat, start_state(c))] + gs
    } else if cat == gs[0].0 {
        seq![(cat, next_state(gs[0].1, c))] + gs.drop_first()
    } else {
        seq![gs[0]] + add_sample(gs.drop_first(), cat, c)
    }
}

/// The groups of a sequence of (category, decoded content) samples, taken
/// in order.
pub open spec fn group_all(ps: Seq<(Seq<char>, Result<JsonValue, Seq<char>>)>) -> Seq<
    (Seq<char>, GroupState),
>
    decreases ps.len(),
{
    if ps.len() == 0 {
        seq![]
    } else {
        add_sample(group_all(ps.drop_last()), ps.last().0, ps.last().1)
    }
}

/// Each decoded sample as (category, outcome).
pub open spec fn decoded_pairs(ss: Seq<DecodedSample>) -> Seq<
    (Seq<char>, Result<JsonValue, Seq<char>>),
> {
    ss.map_values(|s: DecodedSample| (s.category@, s.content.outcome()))
}

/// Each input sample as (category, outcome of decoding its content).
pub open spec fn input_pairs(ds: Seq<InputData>) -> Seq<(Seq<char>, Result<JsonValue, Seq<char>>)> {
    ds.map_values(|d: InputData| (d.category@, decode_content(d.content@)))
}

/// The declaration of a category whose declaration name is `base` followed
/// by `Content`, and whose samples all decoded to the shape `t`.
pub open spec fn typed_declaration(base: Seq<char>, t: Shape) -> Seq<char> {
    "export type "@ + base + "Content"@ + " = "@ + render(t) + ";\n\n"@
}

/// The declaration of a category named from `base` that had a sample whose
/// content `raw` was not JSON: a comment quoting it, then the type `string`.
pub open spec fn invalid_declaration(base: Seq<char>, raw: Seq<char>) -> Seq<char> {
    "// The 'content' field contained invalid JSON: \""@ + raw + "\"\n"@ + "export type "@ + base
        + "Content"@ + " = "@ + render(Shape::Prim(PrimitiveType::String)) + ";\n\n"@
}

/// The declaration of one category, named from its pascal-cased name.
pub open spec fn declaration(cat: Seq<char>, st: GroupState) -> Seq<char> {
    match st {
        GroupState::Typed(t) => typed_declaration(pascal_of(cat), t),
        GroupState::Invalid(raw) => invalid_declaration(pascal_of(cat), raw),
    }
}

/// The member of the root union for a category whose declaration name is
/// `base` followed by `Content`.
pub open spec fn member_named(cat: Seq<char>, base: Seq<char>) -> Seq<char> {
    "{ type: \""@ + cat + "\", content: "@ + base + "Content"@ + " }"@
}

/// The member of the root union for one category.
pub open spec fn member(cat: Seq<char>) -> Seq<char> {
    member_named(cat, pascal_of(cat))
}

/// The declarations of all groups, in order.
pub open spec fn declarations(gs: Seq<(Seq<char>, GroupState)>) -> Seq<char>
    decreases gs.len(),
{
    if gs.len() == 0 {
        seq![]
    } else {
        declaration(gs[0].0, gs[0].1) + declarations(gs.drop_first())
    }
}

/// The members of the root union, joined by `" | "`.
pub open spec fn members(gs: Seq<(Seq<char>, GroupState)>) -> Seq<char>
    decreases gs.len(),
{
    if gs.len() == 0 {
        seq![]
    } else if gs.len() == 1 {
        member(gs[0].0)
    } else {
        member(gs[0].0) + " | "@ + members(gs.drop_first())
    }
}

/// The whole output: one declaration per category in category order, then
/// the root union (`never` when there are no categories).
pub open spec fn output_text(gs: Seq<(Seq<char>, GroupState)>, root: Seq<char>) -> Seq<char> {
    declarations(gs) + "export type "@ + root + " = "@ + (if gs.len() == 0 {
        "never"@
    } else {
        members(gs)
    }) + ";\n"@
}

enum GroupAcc {
    Typed(InferredType),
    Invalid(String),
}

enum GroupList {
    End,
    Group(String, GroupAcc, Box<GroupList>),
}

impl GroupAcc {
    spec fn state(&self) -> GroupState {
        match self {
            GroupAcc::Typed(t) => GroupState::Typed(t.shape()),
            GroupAcc::Invalid(s) => GroupState::Invalid(s@),
        }
    }

    spec fn ok(&self) -> bool {
        match self {
            GroupAcc::Typed(t) => t.shape().never_free() && t.shape().wf(),
            GroupAcc::Invalid(_) => true,
        }
    }
}

impl GroupList {
    spec fn groups(&self) -> Seq<(Seq<char>, GroupState)>
        decreases self,
    {
        match self {
            GroupList::End => seq![],
            GroupList::Group(k, acc, rest) => seq![(k@, acc.state())] + rest.groups(),
        }
    }

    spec fn ok(&self) -> bool
        decreases self,
    {
        match self {
            GroupList::End => true,
            GroupList::Group(_, acc, rest) => acc.ok() && rest.ok(),
        }
    }
}

fn start_acc(c: &SampleContent) -> (r: GroupAcc)
    ensures
        r.state() == start_state(c.outcome()),
        r.ok(),
{
    match c {
        SampleContent::Valid(v) => {
            let t = crate::inference::infer_ref(v);
            proof {
                lemma_infer_never_free(*v);
            }
            GroupAcc::Typed(merge_types(InferredType::Never, t))
        },
        SampleContent::Invalid(s) => GroupAcc::Invalid(s.clone()),
    }
}

fn next_acc(acc: GroupAcc, c: &SampleContent) -> (r: GroupAcc)
    requires
        acc.ok(),
    ensures
        r.state() == next_state(acc.state(), c.outcome()),
        r.ok(),
{
    match acc {
        GroupAcc::Invalid(raw) => GroupAcc::Invalid(raw),
        GroupAcc::Typed(t) => match c {
            SampleContent::Valid(v) => {
                let u = crate::inference::infer_ref(v);
                proof {
                    lemma_infer_never_free(*v);
                    lemma_merge_never_free(t.shape(), u.shape());
                }
                GroupAcc::Typed(merge_types(t, u))
            },
            SampleContent::Invalid(s) => GroupAcc::Invalid(s.clone()),
        },
    }
}

fn add_to_groups(list: GroupList, cat: &String, c: &SampleContent) -> (r: GroupList)
    requires
        list.ok(),
    ensures
        r.groups() == add_sample(list.groups(), cat@, c.outcome()),
        r.ok(),
    decreases list,
{
    match list {
        GroupList::End => {
            let acc = start_acc(c);
            let name = cat.clone();
            let r = GroupList::Group(name, acc, Box::new(GroupList::End));
            assert(GroupList::End.groups() =~= seq![]);
            assert(r.groups() =~= seq![(cat@, start_state(c.outcome()))]);
            r
        },
        GroupList::Group(k, acc, rest) => {
            let ghost gs = GroupList::Group(k, acc, rest).groups();
            assert(gs.drop_first() =~= rest.groups());
            let o = compare_keys(cat.as_str(), k.as_str());
            if o < 0 {
                let a = start_acc(c);
                GroupList::Group(cat.clone(), a, Box::new(GroupList::Group(k, acc, rest)))
            } else if o == 0 {
                let a = next_acc(acc, c);
                let r = GroupList::Group(k, a, rest);
                assert(r.groups() =~= add_sample(gs, cat@, c.outcome()));
                r
            } else {
                let tail = add_to_groups(*rest, cat, c);
                let r = GroupList::Group(k, acc, Box::new(tail));
                assert(r.groups() =~= add_sample(gs, cat@, c.outcome()));
                r
            }
        },
    }
}

/// The declaration of a category whose declaration name is `base` followed
/// by `Content`, and whose samples all decoded to `ty`.
pub fn format_declaration(base: &str, ty: InferredType) -> (r: String)
    requires
        ty.shape().never_free(),
        ty.shape().wf(),
    ensures
        r@ == typed_declaration(base@, ty.shape()),
{
    let text = format_type_to_ts_string(ty);
    let mut decl = String::from_str("export type ");
    decl.append(base);
    decl.append("Content");
    decl.append(" = ");
    decl.append(text.as_str());
    decl.append(";\n\n");
    decl
}

/// The declaration, as `string`, of a category named from `base` that had a
/// sample whose content `raw` was not JSON.
pub fn format_invalid_declaration(base: &str, raw: &str) -> (r: String)
    ensures
        r@ == invalid_declaration(base@, raw@),
{
    let mut decl = String::from_str("// The 'content' field contained invalid JSON: \"");
    decl.append(raw);
    decl.append("\"\n");
    decl.append("export type ");
    decl.append(base);
    decl.append("Content");
    decl.append(" = ");
    decl.append(PrimitiveType::String.as_str());
    decl.append(";\n\n");
    decl
}

/// The member of the root union for `category`, whose declaration name is
/// `base` followed by `Content`.
pub fn format_member(category: &str, base: &str) -> (r: String)
    ensures
        r@ == member_named(category@, base@),
{
    let mut entry = String::from_str("{ type: \"");
    entry.append(category);
    entry.append("\", content: ");
    entry.append(base);
    entry.append("Content");
    entry.append(" }");
    entry
}

fn emit(list: GroupList, decls: &mut String, union: &mut String)
    requires
        list.ok(),
    ensures
        final(decls)@ == old(decls)@ + declarations(list.groups()),
        final(union)@ == old(union)@ + members(list.groups()),
    decreases list,
{
    match list {
        GroupList::End => {
            assert(old(decls)@ =~= old(decls)@ + declarations(seq![]));
            assert(old(union)@ =~= old(union)@ + members(seq![]));
        },
        GroupList::Group(k, acc, rest) => {
            let ghost gs = GroupList::Group(k, acc, rest).groups();
            assert(gs.drop_first() =~= rest.groups());
            let ghost d0 = decls@;
            let ghost u0 = union@;
            let name = pascal(k.as_str());
            let decl = match acc {
                GroupAcc::Typed(t) => format_declaration(name.as_str(), t),
                GroupAcc::Invalid(raw) => format_invalid_declaration(name.as_str(), raw.as_str()),
            };
            let mut entry = format_member(k.as_str(), name.as_str());
            let more = match *rest {
                GroupList::End => false,
                _ => true,
            };
            if more {
                entry.append(" | ");
            }
            decls.append(decl.as_str());
            union.append(entry.as_str());
            emit(*rest, decls, union);
            assert(decls@ =~= d0 + declarations(gs));
            assert(union@ =~= u0 + members(gs));
        },
    }
}

/// Builds the declarations text from decoded samples, grouped by category
/// in category order.
pub fn generate_from_samples(samples: &Vec<DecodedSample>, root_name: &str) -> (r: String)
    ensures
        r@ == output_text(group_all(decoded_pairs(samples@)), root_name@),
{
    let mut list = GroupList::End;
    let mut i: usize = 0;
    while i < samples.len()
        invariant
            i <= samples.len(),
            list.ok(),
            list.groups() == group_all(decoded_pairs(samples@).subrange(0, i as int)),
        decreases samples.len() - i,
    {
        let ghost ps = decoded_pairs(samples@);
        assert(ps.subrange(0, i + 1).drop_last() =~= ps.subrange(0, i as int));
        list = add_to_groups(list, &samples[i].category, &samples[i].content);
        i = i + 1;
    }
    assert(decoded_pairs(samples@).subrange(0, samples.len() as int) =~= decoded_pairs(samples@));
    let ghost gs = list.groups();
    let empty = match list {
        GroupList::End => true,
        _ => false,
    };
    let mut decls = String::new();
    let mut union = String::new();
    emit(list, &mut decls, &mut union);
    let mut out = decls;
    out.append("export type ");
    out.append(root_name);
    out.append(" = ");
    if empty {
        out.append("never");
    } else {
        out.append(union.as_str());
    }
    out.append(";\n");
    assert(out@ =~= output_text(gs, root_name@));
    out
}

/// Decodes one sample's content.
pub fn decode_sample(content: &String) -> (r: SampleContent)
    ensures
        r.outcome() == decode_content(content@),
{
    match decode_json(content.as_str()) {
        None => SampleContent::Invalid(content.clone()),
        Some(JsonValue::Str(inner)) => match decode_json(inner.as_str()) {
            None => SampleContent::Invalid(content.clone()),
            Some(v) => SampleContent::Valid(v),
        },
        Some(v) => SampleContent::Valid(v),
    }
}

/// Generates the declarations text for all samples: each content is decoded
/// (twice when it holds an encoded JSON string), each category gets one
/// declaration, and a root union names them all.
pub fn generate_typescript_definitions(json_array: Vec<InputData>, root_name: &str) -> (r: String)
    ensures
        r@ == output_text(group_all(input_pairs(json_array@)), root_name@),
{
    let mut decoded: Vec<DecodedSample> = Vec::new();
    let mut i: usize = 0;
    while i < json_array.len()
        invariant
            i <= json_array.len(),
            decoded@.len() == i,
            forall|j: int|
                0 <= j < i ==> (#[trigger] decoded@[j]).category@ == json_array@[j].category@
                    && decoded@[j].content.outcome() == decode_content(json_array@[j].content@),
        decreases json_array.len() - i,
    {
        let content = decode_sample(&json_array[i].content);
        decoded.push(DecodedSample { category: json_array[i].category.clone(), content });
        i = i + 1;
    }
    assert(decoded_pairs(decoded@) =~= input_pairs(json_array@));
    generate_from_samples(&decoded, root_name)
}

} // verus!
