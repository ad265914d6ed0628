//! What the names, values and tags of invocations are read as, and what their calls are.
use crate::content_laws::is_call;
use crate::invoke::attr_name;
use crate::invoke::invoke_calls;
use crate::invoke::param;
use crate::invoke::param_members;
use crate::invoke::Invocation;
use crate::json::json_parse;
use crate::json::json_text;
use crate::json::Json;
use crate::search::contains;
use crate::search::find_char;
use crate::search::lemma_find_char;
use crate::search::trim;
use crate::search_laws::first_behind;
use crate::search_laws::law_character_found;
use crate::search_laws::law_found_first;
use crate::search_laws::law_found_stands;
use vstd::prelude::*;

verus! {

// ---------------------------------------------------------------------------------------
// Values
// ---------------------------------------------------------------------------------------
/// One more parameter makes one member: the JSON value that its text is, white characters round
/// it apart, or the text itself where that is no JSON. It replaces a member of the same name and
/// leaves the others as they are. Without parameters there are no members.
pub proof fn law_parameter_becomes_member(
    found: Seq<(Seq<char>, Seq<char>)>,
    name: Seq<char>,
    value: Seq<char>,
)
    ensures
        ({
            let before = param_members(found);
            let after = param_members(found.push((name, value)));
            &&& after.contains_key(name)
            &&& json_parse(trim(value)) matches Some(v) ==> after[name] == v
            &&& json_parse(trim(value)) is None ==> after[name] == Json::Text(value)
            &&& forall|other: Seq<char>|
                other != name ==> #[trigger] after.contains_key(other) == before.contains_key(other)
            &&& forall|other: Seq<char>|
                other != name && before.contains_key(other) ==> #[trigger] after[other]
                    == before[other]
        }),
        param_members(seq![]) == Map::<Seq<char>, Json>::empty(),
{
    assert(found.push((name, value)).drop_last() =~= found);
    assert(param_members(seq![]) =~= Map::<Seq<char>, Json>::empty());
}

/// The members that parameters make have the names of the parameters, and each is read from the
/// last of its name.
pub proof fn law_members_come_from_parameters(
    found: Seq<(Seq<char>, Seq<char>)>,
    k: int,
)
    requires
        0 <= k < found.len(),
        forall|j: int| k < j < found.len() ==> (#[trigger] found[j]).0 != found[k].0,
    ensures
        param_members(found).contains_key(found[k].0),
        json_parse(trim(found[k].1)) matches Some(v) ==> param_members(found)[found[k].0] == v,
        json_parse(trim(found[k].1)) is None ==> param_members(found)[found[k].0] == Json::Text(
            found[k].1,
        ),
    decreases found.len(),
{
    let before = found.drop_last();
    let (name, value) = found.last();
    law_parameter_becomes_member(before, name, value);
    assert(before.push((name, value)) =~= found);
    if k < found.len() - 1 {
        assert(found[found.len() - 1].0 != found[k].0);
        assert forall|j: int| k < j < before.len() implies (#[trigger] before[j]).0
            != before[k].0 by {
            assert(before[j] == found[j]);
        }
        law_members_come_from_parameters(before, k);
    }
}

/// Every member comes from a parameter of its name.
pub proof fn law_no_other_members(found: Seq<(Seq<char>, Seq<char>)>, name: Seq<char>)
    requires
        forall|k: int| 0 <= k < found.len() ==> (#[trigger] found[k]).0 != name,
    ensures
        !param_members(found).contains_key(name),
    decreases found.len(),
{
    if found.len() > 0 {
        let before = found.drop_last();
        assert(found[found.len() - 1].0 != name);
        assert forall|k: int| 0 <= k < before.len() implies (#[trigger] before[k]).0 != name by {
            assert(before[k] == found[k]);
        }
        law_no_other_members(before, name);
        law_parameter_becomes_member(before, found.last().0, found.last().1);
        assert(before.push((found.last().0, found.last().1)) =~= found);
    }
}

/// Each invocation becomes a call in its place, with its name, and with the object that its
/// parameters make printed as its arguments.
pub proof fn law_invocation_becomes_call(found: Seq<Invocation>, first: u64, k: int)
    requires
        0 <= k < found.len(),
    ensures
        invoke_calls(found, first).len() == found.len(),
        json_text(Json::Object(param_members(found[k].params))) matches Some(t) ==> is_call(
            invoke_calls(found, first)[k],
            first,
            k,
            found[k].name,
            t,
        ),
        json_text(Json::Object(param_members(found[k].params))) is None ==> is_call(
            invoke_calls(found, first)[k],
            first,
            k,
            found[k].name,
            "{}"@,
        ),
{
}

// ---------------------------------------------------------------------------------------
// Names
// ---------------------------------------------------------------------------------------
/// A name goes from behind `name="` to the first quote or closing angle bracket.
pub proof fn law_name_read(a: Seq<char>, name: Seq<char>, q: char, b: Seq<char>)
    requires
        first_behind(a, "name=\""@, name + seq![q] + b),
        !name.contains('"'),
        !name.contains('>'),
        q == '"' || q == '>',
    ensures
        attr_name(a + "name=\""@ + (name + seq![q] + b)) == Some(name),
{
    reveal_strlit("name=\"");
    let mark = "name=\""@;
    let tail = name + seq![q] + b;
    let s = a + mark + tail;
    let n = name.len() as int;
    law_found_first(a, mark, tail);
    assert(s.skip((a.len() + 6) as int) =~= tail);
    assert(tail.take(n) =~= name);
    assert(tail[n] == q);
    law_character_found(name, q, b);
    let other = if q == '"' {
        '>'
    } else {
        '"'
    };
    lemma_find_char(tail, other);
    if let Some(j) = find_char(tail, other) {
        if j < n {
            assert(tail[j] == name[j]);
        }
    }
}

/// Without `name="`, or without a quote or a closing angle bracket behind it, there is no name.
pub proof fn law_no_name_read(a: Seq<char>, tail: Seq<char>)
    requires
        !tail.contains('"'),
        !tail.contains('>'),
    ensures
        !contains(a, "name=\""@) ==> attr_name(a) is None,
        first_behind(a, "name=\""@, tail) ==> attr_name(a + "name=\""@ + tail) is None,
{
    reveal_strlit("name=\"");
    let mark = "name=\""@;
    law_found_stands(a, mark);
    if first_behind(a, mark, tail) {
        law_found_first(a, mark, tail);
        assert((a + mark + tail).skip((a.len() + 6) as int) =~= tail);
        law_character_found(tail, '"', seq![]);
        law_character_found(tail, '>', seq![]);
    }
}

/// A parameter has the name in its tag, and its value goes from behind the first closing angle
/// bracket to the first closing tag; all of that is used up, the closing tag with it. Without a
/// closing tag there is no parameter.
pub proof fn law_parameter_read(
    open: Seq<char>,
    value: Seq<char>,
    behind: Seq<char>,
    name: Seq<char>,
)
    requires
        !open.contains('>'),
    ensures
        first_behind(value, "</parameter>"@, behind) && attr_name(
            open + seq!['>'] + (value + "</parameter>"@ + behind),
        ) == Some(name) ==> param(open + seq!['>'] + (value + "</parameter>"@ + behind)) == Some(
            (name, value, (open.len() + 1 + value.len() + "</parameter>"@.len()) as int),
        ),
        !contains(value, "</parameter>"@) ==> param(open + seq!['>'] + value) is None,
        param(open) is None,
{
    reveal_strlit("</parameter>");
    let close = "</parameter>"@;
    let g = open.len() as int;
    if first_behind(value, close, behind) {
        let rest = value + close + behind;
        let s = open + seq!['>'] + rest;
        law_character_found(open, '>', rest);
        law_found_first(value, close, behind);
        assert(s.skip(g + 1) =~= rest);
        assert(s.subrange(g + 1, g + 1 + value.len()) =~= value);
    }
    if !contains(value, close) {
        let s = open + seq!['>'] + value;
        law_character_found(open, '>', value);
        law_found_stands(value, close);
        assert(s.skip(g + 1) =~= value);
    }
    law_character_found(open, '>', seq![]);
}

} // verus!
