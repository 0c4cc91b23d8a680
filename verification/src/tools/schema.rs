//! Schemas of tool arguments.

use crate::utils::json::{
    array_text, array_value, ascending, compact_text, member_views, number_value, object_text,
    object_value, precedes, quoted, text_value, value_texts,
};
use crate::utils::text::decimal;
use vstd::prelude::*;

verus! {

/// The schema of an argument that is a text.
pub open spec fn text_property(description: Seq<char>) -> Seq<char> {
    object_text(seq![("description"@, quoted(description)), ("type"@, quoted("string"@))])
}

/// The schema of an argument that is one of two texts.
pub open spec fn choice_property(
    description: Seq<char>,
    first: Seq<char>,
    second: Seq<char>,
) -> Seq<char> {
    object_text(
        seq![
            ("description"@, quoted(description)),
            ("enum"@, array_text(seq![quoted(first), quoted(second)])),
            ("type"@, quoted("string"@)),
        ],
    )
}

/// The schema of an argument that is an integer within bounds.
pub open spec fn integer_property(
    description: Seq<char>,
    minimum: nat,
    maximum: nat,
) -> Seq<char> {
    object_text(
        seq![
            ("description"@, quoted(description)),
            ("maximum"@, decimal(maximum)),
            ("minimum"@, decimal(minimum)),
            ("type"@, quoted("integer"@)),
        ],
    )
}

/// The schema of arguments, one of which is required.
pub open spec fn arguments_schema(
    properties: Seq<(Seq<char>, Seq<char>)>,
    required: Seq<char>,
) -> Seq<char> {
    object_text(
        seq![
            ("properties"@, object_text(properties)),
            ("required"@, array_text(seq![quoted(required)])),
            ("type"@, quoted("object"@)),
        ],
    )
}

/// An argument that is a text.
pub(crate) fn text_argument(description: &str) -> (r: serde_json::Value)
    ensures
        compact_text(r) == text_property(description@),
{
    let members = vec![
        ("description".to_owned(), text_value(description)),
        ("type".to_owned(), text_value("string")),
    ];
    proof {
        reveal_strlit("description");
        reveal_strlit("type");
        assert(member_views(members@) =~= seq![
            ("description"@, quoted(description@)),
            ("type"@, quoted("string"@)),
        ]);
    }
    object_value(members)
}

/// An argument that is one of two texts.
pub(crate) fn choice_argument(description: &str, first: &str, second: &str) -> (r:
    serde_json::Value)
    ensures
        compact_text(r) == choice_property(description@, first@, second@),
{
    let choices = vec![text_value(first), text_value(second)];
    assert(value_texts(choices@) =~= seq![quoted(first@), quoted(second@)]);
    let members = vec![
        ("description".to_owned(), text_value(description)),
        ("enum".to_owned(), array_value(choices)),
        ("type".to_owned(), text_value("string")),
    ];
    proof {
        reveal_strlit("description");
        reveal_strlit("enum");
        reveal_strlit("type");
        assert(member_views(members@) =~= seq![
            ("description"@, quoted(description@)),
            ("enum"@, array_text(seq![quoted(first@), quoted(second@)])),
            ("type"@, quoted("string"@)),
        ]);
    }
    object_value(members)
}

/// An argument that is an integer within bounds.
pub(crate) fn integer_argument(description: &str, minimum: u64, maximum: u64) -> (r:
    serde_json::Value)
    ensures
        compact_text(r) == integer_property(description@, minimum as nat, maximum as nat),
{
    let members = vec![
        ("description".to_owned(), text_value(description)),
        ("maximum".to_owned(), number_value(maximum)),
        ("minimum".to_owned(), number_value(minimum)),
        ("type".to_owned(), text_value("integer")),
    ];
    proof {
        reveal_strlit("description");
        reveal_strlit("maximum");
        reveal_strlit("minimum");
        reveal_strlit("type");
        assert(precedes("maximum"@, "minimum"@)) by {
            reveal_with_fuel(precedes, 3);
        }
        assert(member_views(members@) =~= seq![
            ("description"@, quoted(description@)),
            ("maximum"@, decimal(maximum as nat)),
            ("minimum"@, decimal(minimum as nat)),
            ("type"@, quoted("integer"@)),
        ]);
    }
    object_value(members)
}

/// Arguments, one of which is required.
pub(crate) fn arguments(
    properties: Vec<(String, serde_json::Value)>,
    required: &str,
) -> (r: serde_json::Value)
    requires
        ascending(member_views(properties@)),
    ensures
        compact_text(r) == arguments_schema(member_views(properties@), required@),
{
    let ghost views = member_views(properties@);
    let names = vec![text_value(required)];
    assert(value_texts(names@) =~= seq![quoted(required@)]);
    let members = vec![
        ("properties".to_owned(), object_value(properties)),
        ("required".to_owned(), array_value(names)),
        ("type".to_owned(), text_value("object")),
    ];
    proof {
        reveal_strlit("properties");
        reveal_strlit("required");
        reveal_strlit("type");
        assert(member_views(members@) =~= seq![
            ("properties"@, object_text(views)),
            ("required"@, array_text(seq![quoted(required@)])),
            ("type"@, quoted("object"@)),
        ]);
    }
    object_value(members)
}

} // verus!
