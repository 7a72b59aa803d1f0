use vstd::prelude::*;
use vstd::string::{StrSliceExecFns, StringExecFns};
use crate::types::{keyword, Fields, InferredType, PrimitiveType, PropertyMap, Shape};

verus! {

/// A character of the identifier class `[A-Za-z0-9_$]`.
pub open spec fn is_ident_char(c: char) -> bool {
    ('a' <= c && c <= 'z') || ('A' <= c && c <= 'Z') || ('0' <= c && c <= '9') || c == '_' || c
        == '$'
}

/// A key written bare: it matches `^[^0-9][A-Za-z0-9_$]*$`.
pub open spec fn is_bare_key(k: Seq<char>) -> bool {
    &&& k.len() > 0
    &&& !('0' <= k[0] && k[0] <= '9')
    &&& forall|i: int| 1 <= i < k.len() ==> is_ident_char(#[trigger] k[i])
}

/// `k` with a backslash put before each double quote and each backslash.
pub open spec fn escape_literal(k: Seq<char>) -> Seq<char>
    decreases k.len(),
{
    if k.len() == 0 {
        seq![]
    } else {
        escape_literal(k.drop_last()) + if k.last() == '"' || k.last() == '\\' {
            seq!['\\', k.last()]
        } else {
            seq![k.last()]
        }
    }
}

/// How a property key is written: bare, or as a quoted string literal.
pub open spec fn key_text(k: Seq<char>) -> Seq<char> {
    if is_bare_key(k) {
        k
    } else {
        seq!['"'] + escape_literal(k) + seq!['"']
    }
}

/// Keywords of `ks` joined by `sep`.
pub open spec fn join_kinds(ks: Seq<PrimitiveType>, sep: Seq<char>) -> Seq<char>
    decreases ks.len(),
{
    if ks.len() == 0 {
        seq![]
    } else if ks.len() == 1 {
        keyword(ks[0])
    } else {
        join_kinds(ks.drop_last(), sep) + sep + keyword(ks.last())
    }
}

/// The declaration syntax of a shape.
pub open spec fn render(s: Shape) -> Seq<char>
    decreases s,
{
    match s {
        Shape::Prim(p) => keyword(p),
        Shape::Any => "any"@,
        Shape::Union(ks) => join_kinds(ks, " | "@),
        Shape::Tuple(ks) => "["@ + join_kinds(ks, ", "@) + "]"@,
        Shape::Array(i) => "Array<"@ + render(*i) + ">"@,
        Shape::Object(f) => match f {
            Fields::Nil => "object"@,
            _ => "{\n"@ + render_fields(f) + "\n}"@,
        },
        Shape::Nullable(i) => render(*i) + " | null"@,
        Shape::Never => seq![],
    }
}

/// The property lines of an object, in list order, joined by `";\n"`.
pub open spec fn render_fields(f: Fields) -> Seq<char>
    decreases f,
{
    match f {
        Fields::Nil => seq![],
        Fields::Cons(k, t, o, rest) => {
            let line = "  "@ + key_text(k) + (if o {
                "?"@
            } else {
                seq![]
            }) + ": "@ + render(*t);
            match *rest {
                Fields::Nil => line,
                _ => line + ";\n"@ + render_fields(*rest),
            }
        },
    }
}

fn is_ident_char_exec(c: char) -> (r: bool)
    ensures
        r == is_ident_char(c),
{
    ('a' <= c && c <= 'z') || ('A' <= c && c <= 'Z') || ('0' <= c && c <= '9') || c == '_' || c
        == '$'
}

fn is_bare_key_exec(key: &str) -> (r: bool)
    ensures
        r == is_bare_key(key@),
{
    let n = key.unicode_len();
    if n == 0 {
        return false;
    }
    let c0 = key.get_char(0);
    if '0' <= c0 && c0 <= '9' {
        return false;
    }
    let mut i: usize = 1;
    while i < n
        invariant
            1 <= i <= n,
            n == key@.len(),
            forall|j: int| 1 <= j < i ==> is_ident_char(#[trigger] key@[j]),
        decreases n - i,
    {
        if !is_ident_char_exec(key.get_char(i)) {
            return false;
        }
        i = i + 1;
    }
    true
}

/// Writes a property key bare when it is a valid identifier, and otherwise
/// as a double-quoted string literal with each `"` and `\` escaped, so
/// that the literal reads back as the key.
pub fn format_property_key(key: &str) -> (r: String)
    ensures
        r@ == key_text(key@),
{
    if is_bare_key_exec(key) {
        return String::from_str(key);
    }
    let n = key.unicode_len();
    let mut out = String::from_str("\"");
    proof {
        reveal_strlit("\"");
        assert(escape_literal(key@.subrange(0, 0)) =~= seq![]);
    }
    assert(out@ =~= seq!['"'] + escape_literal(key@.subrange(0, 0)));
    let mut i: usize = 0;
    while i < n
        invariant
            i <= n,
            n == key@.len(),
            out@ == seq!['"'] + escape_literal(key@.subrange(0, i as int)),
        decreases n - i,
    {
        let c = key.get_char(i);
        assert(key@.subrange(0, i + 1).drop_last() =~= key@.subrange(0, i as int));
        if c == '"' {
            out.append("\\\"");
        } else if c == '\\' {
            out.append("\\\\");
        } else {
            let one = key.substring_char(i, i + 1);
            assert(one@ =~= seq![c]);
            out.append(one);
        }
        proof {
            reveal_strlit("\\\"");
            reveal_strlit("\\\\");
        }
        assert(out@ =~= seq!['"'] + escape_literal(key@.subrange(0, i + 1)));
        i = i + 1;
    }
    assert(key@.subrange(0, n as int) =~= key@);
    out.append("\"");
    proof {
        reveal_strlit("\"");
    }
    assert(out@ =~= key_text(key@));
    out
}

fn join_keywords(ks: &Vec<PrimitiveType>, sep: &str) -> (r: String)
    ensures
        r@ == join_kinds(ks@, sep@),
{
    let mut out = String::new();
    let mut i: usize = 0;
    while i < ks.len()
        invariant
            i <= ks.len(),
            out@ == join_kinds(ks@.subrange(0, i as int), sep@),
        decreases ks.len() - i,
    {
        assert(ks@.subrange(0, i + 1).drop_last() =~= ks@.subrange(0, i as int));
        if i > 0 {
            out.append(sep);
        }
        out.append(ks[i].as_str());
        i = i + 1;
    }
    assert(ks@.subrange(0, ks.len() as int) =~= ks@);
    out
}

fn format_props(m: PropertyMap) -> (r: String)
    requires
        m.fields().never_free(),
        m.fields().wf(),
    ensures
        r@ == render_fields(m.fields()),
    decreases m,
{
    match m {
        PropertyMap::Empty => String::new(),
        PropertyMap::Entry(k, d, rest) => {
            let mut line = String::from_str("  ");
            let key = format_property_key(k.as_str());
            line.append(key.as_str());
            if d.optional {
                line.append("?");
            }
            line.append(": ");
            let t = format_type_to_ts_string(d.ty);
            line.append(t.as_str());
            match *rest {
                PropertyMap::Empty => line,
                other => {
                    line.append(";\n");
                    let tail = format_props(other);
                    line.append(tail.as_str());
                    line
                },
            }
        },
    }
}

/// Renders an inferred type as declaration syntax. The type must be well
/// formed, so object properties come out in key order.
pub fn format_type_to_ts_string(inferred_type: InferredType) -> (r: String)
    requires
        inferred_type.shape().never_free(),
        inferred_type.shape().wf(),
    ensures
        r@ == render(inferred_type.shape()),
    decreases inferred_type,
{
    match inferred_type {
        InferredType::Primitive(p) => String::from_str(p.as_str()),
        InferredType::Any => String::from_str("any"),
        InferredType::PrimitiveUnion(ks) => join_keywords(&ks, " | "),
        InferredType::PrimitiveTuple(ks) => {
            let mut out = String::from_str("[");
            let inner = join_keywords(&ks, ", ");
            out.append(inner.as_str());
            out.append("]");
            out
        },
        InferredType::Array(i) => {
            let mut out = String::from_str("Array<");
            let inner = format_type_to_ts_string(*i);
            out.append(inner.as_str());
            out.append(">");
            out
        },
        InferredType::Object(m) => match m {
            PropertyMap::Empty => String::from_str("object"),
            other => {
                let mut out = String::from_str("{\n");
                let inner = format_props(other);
                out.append(inner.as_str());
                out.append("\n}");
                out
            },
        },
        InferredType::NullableObj(i) => {
            let mut out = format_type_to_ts_string(*i);
            out.append(" | null");
            out
        },
        InferredType::Never => String::new(),
    }
}

} // verus!
