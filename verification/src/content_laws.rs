//! How the content of a block of tool calls is read, said of the parts that it is made of, and
//! which calls the JSON values in it give.
use crate::blocks::block_call;
use crate::blocks::block_calls;
use crate::blocks::blocks;
use crate::blocks::numbered_calls;
use crate::blocks::Blocks;
use crate::calls::call_id;
use crate::calls::hex_digits;
use crate::calls::item_calls;
use crate::calls::item_name;
use crate::calls::named_items;
use crate::calls::nth_id;
use crate::invoke::invocations;
use crate::invoke::invoke_calls;
use crate::json::json_parse;
use crate::json::json_text;
use crate::json::Json;
use crate::repair::repaired;
use crate::search::contains;
use crate::search::find_char;
use crate::search::is_space;
use crate::search::trim;
use crate::search::trim_end;
use crate::search::trim_start_char;
use crate::search_laws::first_behind;
use crate::search_laws::law_character_found;
use crate::search_laws::law_character_trimmed;
use crate::search_laws::law_found_first;
use crate::search_laws::law_found_stands;
use crate::search_laws::law_last_character_found;
use crate::search_laws::law_leading_white;
use crate::search_laws::law_trimmed;
use crate::search_laws::white;
use crate::tool_parser::array_contents;
use crate::tool_parser::array_text;
use crate::tool_parser::content_calls;
use crate::tool_parser::content_faults;
use crate::tool_parser::content_ids;
use crate::tool_parser::contents;
use crate::tool_parser::up_to_last;
use crate::tool_parser::Contents;
use crate::types::ToolCallView;
use vstd::prelude::*;

verus! {

// ---------------------------------------------------------------------------------------
// Arrays
// ---------------------------------------------------------------------------------------
/// A text from `[` to `]` with something between them.
pub open spec fn bracketed(a: Seq<char>) -> bool {
    a.len() > 2 && a[0] == '[' && a.last() == ']'
}

/// A text from `{` to `}`.
pub open spec fn braced(s: Seq<char>) -> bool {
    s.len() >= 2 && s[0] == '{' && s.last() == '}'
}

/// A content whose first character, white ones apart, is `[` is read from there to its last
/// `]`.
proof fn lemma_array_found(spaces: Seq<char>, a: Seq<char>, more: Seq<char>)
    requires
        white(spaces),
        bracketed(a),
        !more.contains(']'),
    ensures
        contents(spaces + a + more) == array_contents(a),
        trim(a) == a,
        a != "[]"@,
{
    reveal_strlit("[]");
    let s = spaces + a + more;
    let core = a.drop_last();
    let tail = a + more;
    assert(s =~= spaces + tail);
    assert(tail[0] == '[');
    law_leading_white(spaces, tail);
    lemma_trim_end_first(tail);
    assert(!spaces.contains('[')) by {
        if spaces.contains('[') {
            let i = choose|i: int| 0 <= i < spaces.len() && spaces[i] == '[';
            assert(is_space(spaces[i]));
        }
    }
    law_character_found(spaces, '[', a.skip(1) + more);
    assert(s =~= spaces + seq!['['] + (a.skip(1) + more));
    law_last_character_found(spaces + core, ']', more);
    assert(s =~= (spaces + core) + seq![']'] + more);
    assert(array_text(s) =~= a);
    let none = Seq::<char>::empty();
    law_trimmed(none, a, none);
    assert(none + a + none =~= a);
}

/// The end of a text that begins with a character that is not white leaves that character.
proof fn lemma_trim_end_first(s: Seq<char>)
    requires
        s.len() > 0,
        !is_space(s[0]),
    ensures
        trim_end(s).len() > 0,
        trim_end(s)[0] == s[0],
    decreases s.len(),
{
    if is_space(s.last()) {
        assert(s.drop_last()[0] == s[0]);
        lemma_trim_end_first(s.drop_last());
    }
}

/// A JSON array is read as its values, with white characters before it, and with whatever stands
/// behind it but another `]`.
pub proof fn law_array_read_in_place(
    spaces: Seq<char>,
    a: Seq<char>,
    more: Seq<char>,
    items: Seq<Json>,
    first: u64,
)
    requires
        white(spaces),
        bracketed(a),
        !more.contains(']'),
        json_parse(a) == Some(Json::Array(items)),
    ensures
        contents(spaces + a + more) == Contents::Items(items),
        content_calls(spaces + a + more, first) == item_calls(items, first),
        !content_faults(spaces + a + more),
{
    lemma_array_found(spaces, a, more);
}

/// White characters round a JSON array, on either side, do not matter.
pub proof fn law_white_round_array(
    spaces: Seq<char>,
    a: Seq<char>,
    more: Seq<char>,
    items: Seq<Json>,
    first: u64,
)
    requires
        white(spaces),
        white(more),
        bracketed(a),
        json_parse(a) == Some(Json::Array(items)),
    ensures
        contents(spaces + a + more) == Contents::Items(items),
        contents(spaces + a + more) == contents(a),
        content_calls(spaces + a + more, first) == item_calls(items, first),
{
    assert(!more.contains(']')) by {
        if more.contains(']') {
            let i = choose|i: int| 0 <= i < more.len() && more[i] == ']';
            assert(is_space(more[i]));
        }
    }
    law_array_read_in_place(spaces, a, more, items, first);
    let none = Seq::<char>::empty();
    law_array_read_in_place(none, a, none, items, first);
    assert(none + a + none =~= a);
}

/// An array that cannot be read is repaired. Of the repaired text, without the brackets that it
/// begins with, the object from the first `{` to the last `}` is read, and nothing else.
pub proof fn law_broken_array_repaired(
    spaces: Seq<char>,
    a: Seq<char>,
    more: Seq<char>,
    brackets: Seq<char>,
    x: Seq<char>,
    object: Seq<char>,
    y: Seq<char>,
)
    requires
        white(spaces),
        bracketed(a),
        !more.contains(']'),
        !(json_parse(a) matches Some(Json::Array(_))),
        repaired(a) == Some(brackets + x + object + y),
        forall|i: int| 0 <= i < brackets.len() ==> #[trigger] brackets[i] == '[',
        x.len() > 0 ==> x[0] != '[',
        !x.contains('{'),
        braced(object),
        !y.contains('}'),
    ensures
        json_parse(object) matches Some(Json::Object(o)) ==> contents(spaces + a + more)
            == Contents::Items(seq![Json::Object(o)]),
        !(json_parse(object) matches Some(Json::Object(_))) ==> contents(
            spaces + a + more,
        ) is Nothing,
{
    lemma_array_found(spaces, a, more);
    let body = x + object + y;
    assert(brackets + x + object + y =~= brackets + body);
    assert(body[0] == (if x.len() > 0 {
        x[0]
    } else {
        '{'
    }));
    law_character_trimmed(body, '[', brackets);
    lemma_object_found(x, object, y);
}

/// What trimming leaves is a part of the text.
proof fn lemma_trim_end_part(s: Seq<char>)
    ensures
        trim_end(s).len() <= s.len(),
        trim_end(s) == s.take(trim_end(s).len() as int),
    decreases s.len(),
{
    if s.len() > 0 && is_space(s.last()) {
        lemma_trim_end_part(s.drop_last());
        let n = trim_end(s).len() as int;
        assert(s.drop_last().take(n) =~= s.take(n));
    } else {
        assert(s.take(s.len() as int) =~= s);
    }
}

/// An array that is not closed goes to the end of the content, and is repaired in the same way.
pub proof fn law_open_array_repaired(
    spaces: Seq<char>,
    a: Seq<char>,
    brackets: Seq<char>,
    x: Seq<char>,
    object: Seq<char>,
    y: Seq<char>,
)
    requires
        white(spaces),
        a.len() > 0,
        a[0] == '[',
        !a.contains(']'),
        !(json_parse(a) matches Some(Json::Array(_))),
        repaired(a) == Some(brackets + x + object + y),
        forall|i: int| 0 <= i < brackets.len() ==> #[trigger] brackets[i] == '[',
        x.len() > 0 ==> x[0] != '[',
        !x.contains('{'),
        braced(object),
        !y.contains('}'),
    ensures
        json_parse(object) matches Some(Json::Object(o)) ==> contents(spaces + a)
            == Contents::Items(seq![Json::Object(o)]),
        !(json_parse(object) matches Some(Json::Object(_))) ==> contents(spaces + a) is Nothing,
{
    lemma_open_array_found(spaces, a);
    let body = x + object + y;
    assert(brackets + x + object + y =~= brackets + body);
    assert(body[0] == (if x.len() > 0 {
        x[0]
    } else {
        '{'
    }));
    law_character_trimmed(body, '[', brackets);
    lemma_object_found(x, object, y);
}

proof fn lemma_open_array_found(spaces: Seq<char>, a: Seq<char>)
    requires
        white(spaces),
        a.len() > 0,
        a[0] == '[',
        !a.contains(']'),
    ensures
        contents(spaces + a) == array_contents(a),
        trim(a) != "[]"@,
{
    reveal_strlit("[]");
    let s = spaces + a;
    law_leading_white(spaces, a);
    lemma_trim_end_first(a);
    assert forall|i: int| 0 <= i < spaces.len() implies spaces[i] != '[' && spaces[i] != ']' by {
        assert(is_space(spaces[i]));
    }
    law_character_found(spaces, '[', a.skip(1));
    assert(s =~= spaces + seq!['['] + a.skip(1));
    assert(!s.contains(']')) by {
        assert forall|i: int| 0 <= i < s.len() implies s[i] != ']' by {
            if i >= spaces.len() {
                assert(a.contains(a[i - spaces.len()]));
            }
        }
    }
    law_last_character_found(seq![], ']', s);
    assert(array_text(s) =~= a);
    let none = Seq::<char>::empty();
    law_leading_white(none, a);
    assert(none + a =~= a);
    lemma_trim_end_part(a);
    assert(trim(a) == a.take(trim(a).len() as int));
    if trim(a) == "[]"@ {
        assert(trim(a)[1] == a[1]);
        assert(a.contains(a[1]));
    }
}

/// Where no repair makes an array readable, or the repaired text has no object in it, nothing is
/// read.
pub proof fn law_hopeless_array(
    spaces: Seq<char>,
    a: Seq<char>,
    more: Seq<char>,
    brackets: Seq<char>,
    x: Seq<char>,
    first: u64,
)
    requires
        white(spaces),
        bracketed(a),
        !more.contains(']'),
        !(json_parse(a) matches Some(Json::Array(_))),
        repaired(a) is None || repaired(a) == Some(brackets + x) && x.len() > 0,
        forall|i: int| 0 <= i < brackets.len() ==> #[trigger] brackets[i] == '[',
        x.len() > 0 ==> x[0] != '[',
        !x.contains('{'),
    ensures
        contents(spaces + a + more) is Nothing,
        content_calls(spaces + a + more, first) is None,
        content_ids(spaces + a + more) == 0,
{
    lemma_array_found(spaces, a, more);
    law_character_trimmed(x, '[', brackets);
    law_character_found(x, '{', seq![]);
    let none = Seq::<char>::empty();
    law_character_found(none, '{', none);
    assert(trim_start_char(none, '[') =~= none);
}

// ---------------------------------------------------------------------------------------
// Objects
// ---------------------------------------------------------------------------------------
proof fn lemma_object_found(x: Seq<char>, object: Seq<char>, y: Seq<char>)
    requires
        !x.contains('{'),
        braced(object),
        !y.contains('}'),
    ensures
        ({
            let s = x + object + y;
            &&& find_char(s, '{') == Some(x.len() as int)
            &&& up_to_last(s, '}') == x.len() + object.len()
            &&& s.subrange(x.len() as int, up_to_last(s, '}')) == object
        }),
{
    let s = x + object + y;
    law_character_found(x, '{', object.skip(1) + y);
    assert(s =~= x + seq!['{'] + (object.skip(1) + y));
    law_last_character_found(x + object.drop_last(), '}', y);
    assert(s =~= (x + object.drop_last()) + seq!['}'] + y);
    assert(s.subrange(x.len() as int, (x.len() + object.len()) as int) =~= object);
}

/// The content is not read as an array, nor as blocks: its first character, white ones apart, is
/// not `[`, and no tag of a block stands in it.
pub open spec fn loose(s: Seq<char>) -> bool {
    &&& trim(s).len() > 0 ==> trim(s)[0] != '['
    &&& !contains(s, "<|tool_call|>"@)
    &&& !contains(s, "<|tool_calls_begin|>"@)
}

/// In a content with text round it, the object from the first `{` to the last `}` is read, as it
/// is or, where it is no JSON object, as it is repaired. What stands before it and behind it
/// does not matter.
pub proof fn law_object_read_in_place(
    x: Seq<char>,
    object: Seq<char>,
    y: Seq<char>,
    first: u64,
)
    requires
        loose(x + object + y),
        !x.contains('{'),
        braced(object),
        !y.contains('}'),
    ensures
        !content_faults(x + object + y),
        json_parse(object) matches Some(Json::Object(o)) ==> contents(x + object + y)
            == Contents::Items(seq![Json::Object(o)]) && content_calls(x + object + y, first)
            == item_calls(seq![Json::Object(o)], first),
        !(json_parse(object) matches Some(Json::Object(_))) ==> {
            &&& repaired(object) is None ==> contents(x + object + y) is Nothing
            &&& repaired(object) matches Some(t) ==> {
                &&& json_parse(t) matches Some(Json::Object(o)) ==> contents(x + object + y)
                    == Contents::Items(seq![Json::Object(o)])
                &&& !(json_parse(t) matches Some(Json::Object(_))) ==> contents(
                    x + object + y,
                ) is Nothing
            }
        },
{
    lemma_object_found(x, object, y);
}

/// An object that is not closed goes to the end of the content.
pub proof fn law_open_object_read(x: Seq<char>, object: Seq<char>)
    requires
        loose(x + object),
        !x.contains('{'),
        !x.contains('}'),
        object.len() > 0,
        object[0] == '{',
        !object.contains('}'),
    ensures
        json_parse(object) matches Some(Json::Object(o)) ==> contents(x + object)
            == Contents::Items(seq![Json::Object(o)]),
        !(json_parse(object) matches Some(Json::Object(_))) ==> (
        repaired(object) matches Some(t) ==> (json_parse(t) matches Some(Json::Object(o))
            ==> contents(x + object) == Contents::Items(seq![Json::Object(o)]))),
{
    let s = x + object;
    law_character_found(x, '{', object.skip(1));
    assert(s =~= x + seq!['{'] + object.skip(1));
    assert(!s.contains('}')) by {
        if s.contains('}') {
            let i = choose|i: int| 0 <= i < s.len() && s[i] == '}';
            if i < x.len() {
                assert(x[i] == '}');
            } else {
                assert(object[i - x.len()] == '}');
            }
        }
    }
    law_last_character_found(seq![], '}', s);
    assert(s.subrange(x.len() as int, s.len() as int) =~= object);
}

/// Where the last `}` stands before the first `{`, with something between them, the content cannot
/// be cut.
pub proof fn law_closed_before_opened(a: Seq<char>, b: Seq<char>, c: Seq<char>, first: u64)
    requires
        loose(a + seq!['}'] + b + seq!['{'] + c),
        !a.contains('{'),
        !b.contains('{'),
        !b.contains('}'),
        !c.contains('}'),
        b.len() > 0,
    ensures
        content_faults(a + seq!['}'] + b + seq!['{'] + c),
        content_calls(a + seq!['}'] + b + seq!['{'] + c, first) is None,
{
    let s = a + seq!['}'] + b + seq!['{'] + c;
    let front = a + seq!['}'] + b;
    let back = b + seq!['{'] + c;
    assert(!front.contains('{')) by {
        assert forall|i: int| 0 <= i < front.len() implies front[i] != '{' by {
            if i < a.len() {
                assert(a.contains(a[i]));
            } else if i > a.len() {
                assert(b.contains(b[i - a.len() - 1]));
            }
        }
    }
    assert(!back.contains('}')) by {
        assert forall|i: int| 0 <= i < back.len() implies back[i] != '}' by {
            if i < b.len() {
                assert(b.contains(b[i]));
            } else if i > b.len() {
                assert(c.contains(c[i - b.len() - 1]));
            }
        }
    }
    law_character_found(front, '{', c);
    law_last_character_found(a, '}', back);
    assert(s =~= a + seq!['}'] + back);
}

/// A content that begins, white characters apart, with anything but `[` is read as blocks where
/// a tag of a block stands in it, and as invocations where no `{` does either.
pub proof fn law_other_contents(s: Seq<char>)
    requires
        trim(s).len() > 0 ==> trim(s)[0] != '[',
    ensures
        contains(s, "<|tool_call|>"@) || contains(s, "<|tool_calls_begin|>"@) ==> contents(
            s,
        ) is Blocks,
        !contains(s, "<|tool_call|>"@) && !contains(s, "<|tool_calls_begin|>"@) && !s.contains('{')
            ==> contents(s) is Invokes,
{
    if !s.contains('{') {
        law_character_found(s, '{', seq![]);
    }
}

// ---------------------------------------------------------------------------------------
// From contents to calls
// ---------------------------------------------------------------------------------------
/// A call: its name and its arguments, with the identifier and the index of its place.
pub open spec fn is_call(
    c: ToolCallView,
    first: u64,
    k: int,
    name: Seq<char>,
    arguments: Seq<char>,
) -> bool {
    &&& c.id == call_id(nth_id(first, k as nat))
    &&& c.ty == "function"@
    &&& c.index == k as u32
    &&& c.custom is None
    &&& c.function matches Some(f) && f.name == name && f.arguments == arguments
}

/// The arguments that an object gives to its call. A string that is JSON is printed anew, and
/// one that is not stays as it is; any other value is printed; and where there are none, there
/// is an empty object.
pub open spec fn gives_arguments(o: Map<Seq<char>, Json>, arguments: Seq<char>) -> bool {
    &&& !o.contains_key("arguments"@) ==> arguments == "{}"@
    &&& o.contains_key("arguments"@) ==> match o["arguments"@] {
        Json::Text(s) => {
            &&& json_parse(s) is None ==> arguments == s
            &&& json_parse(s) matches Some(v) ==> (json_text(v) matches Some(t) ==> arguments == t)
            &&& json_parse(s) matches Some(v) ==> (json_text(v) is None ==> arguments == s)
        },
        v => {
            &&& json_text(v) matches Some(t) ==> arguments == t
            &&& json_text(v) is None ==> arguments == "{}"@
        },
    }
}

/// An object with a string for its name.
pub open spec fn named_object(v: Json) -> bool {
    v matches Json::Object(o) && o.contains_key("name"@) && o["name"@] is Text
}

proof fn lemma_named(v: Json)
    ensures
        item_name(v) is Some <==> named_object(v),
        v matches Json::Object(o) ==> named_object(v) ==> (o["name"@] matches Json::Text(t)
            && item_name(v) == Some(t)),
{
}

proof fn lemma_all_named(items: Seq<Json>)
    ensures
        named_items(items) <= items.len(),
        named_items(items) == items.len() <==> forall|k: int|
            0 <= k < items.len() ==> named_object(#[trigger] items[k]),
        forall|k: int| 0 <= k < named_items(items) ==> named_object(#[trigger] items[k]),
        named_items(items) < items.len() ==> !named_object(items[named_items(items) as int]),
    decreases items.len(),
{
    if items.len() > 0 {
        lemma_named(items[0]);
        lemma_all_named(items.skip(1));
        let n = named_items(items);
        if n > 0 {
            assert forall|k: int| 0 <= k < n implies named_object(#[trigger] items[k]) by {
                if k > 0 {
                    assert(items.skip(1)[k - 1] == items[k]);
                }
            }
            if n < items.len() {
                assert(items.skip(1)[n - 1] == items[n as int]);
            }
        }
    }
}

/// JSON values give calls exactly where there is at least one, and each is an object with a
/// string for its name: then one call for each, in their order, with that name and with the
/// arguments of the object.
pub proof fn law_values_give_calls(items: Seq<Json>, first: u64)
    ensures
        item_calls(items, first) is Some <==> items.len() > 0 && forall|k: int|
            0 <= k < items.len() ==> named_object(#[trigger] items[k]),
        item_calls(items, first) matches Some(calls) ==> {
            &&& calls.len() == items.len()
            &&& forall|k: int|
                0 <= k < items.len() ==> (#[trigger] items[k] matches Json::Object(o) && (
                o["name"@] matches Json::Text(name) && is_call(
                    calls[k],
                    first,
                    k,
                    name,
                    calls[k].function->0.arguments,
                ) && gives_arguments(o, calls[k].function->0.arguments)))
        },
{
    lemma_all_named(items);
    if let Some(calls) = item_calls(items, first) {
        assert forall|k: int| 0 <= k < items.len() implies (
        #[trigger] items[k] matches Json::Object(o) && (o["name"@] matches Json::Text(name)
            && is_call(calls[k], first, k, name, calls[k].function->0.arguments)
            && gives_arguments(o, calls[k].function->0.arguments))) by {
            assert(named_object(items[k]));
            lemma_named(items[k]);
        }
    }
}

/// Values before the first that has no name are given identifiers, and no others are.
pub proof fn law_identifiers_of_values(named: Seq<Json>, rest: Seq<Json>)
    requires
        forall|k: int| 0 <= k < named.len() ==> named_object(#[trigger] named[k]),
        rest.len() > 0 ==> !named_object(rest[0]),
    ensures
        named_items(named + rest) == named.len(),
{
    let items = named + rest;
    lemma_all_named(items);
    let n = named_items(items) as int;
    if n < named.len() {
        assert(items[n] == named[n]);
    }
    if n > named.len() {
        assert(items[named.len() as int] == rest[0]);
    }
}

/// The body of a block gives a call where it is, or is repaired to, a JSON object with a string
/// for its name. Its arguments are printed as they are, a string among them.
pub proof fn law_block_gives_call(body: Seq<char>, o: Map<Seq<char>, Json>)
    requires
        json_parse(body) == Some(Json::Object(o)) || json_parse(body) is None && (
        repaired(body) matches Some(t) && json_parse(t) == Some(Json::Object(o))),
    ensures
        o.contains_key("name"@) ==> (o["name"@] matches Json::Text(name) ==> (
        block_call(body) matches Some((n, arguments)) && n == name)),
        !o.contains_key("name"@) ==> block_call(body) is None,
        !(o["name"@] is Text) ==> block_call(body) is None,
        block_call(body) matches Some((_, arguments)) ==> {
            &&& !o.contains_key("arguments"@) ==> arguments == "{}"@
            &&& o.contains_key("arguments"@) ==> (json_text(o["arguments"@]) matches Some(t)
                ==> arguments == t)
            &&& o.contains_key("arguments"@) ==> (json_text(o["arguments"@]) is None ==> arguments
                == "{}"@)
        },
{
}

/// A body that is no JSON, and that no repair makes JSON, gives no call; nor does one that is
/// JSON but no object.
pub proof fn law_block_gives_none(body: Seq<char>)
    ensures
        json_parse(body) is None && repaired(body) is None ==> block_call(body) is None,
        json_parse(body) matches Some(v) ==> !(v is Object) ==> block_call(body) is None,
{
}

/// The calls of some bodies are those of the first ones and then those of the others; a body
/// without a call is left out.
pub proof fn law_bodies_give_calls(a: Seq<Seq<char>>, b: Seq<Seq<char>>, body: Seq<char>)
    ensures
        block_calls(a + b) == block_calls(a) + block_calls(b),
        block_call(body) matches Some(c) ==> block_calls(seq![body]) == seq![c],
        block_call(body) is None ==> block_calls(seq![body]) == Seq::<
            (Seq<char>, Seq<char>),
        >::empty(),
    decreases b.len(),
{
    assert(seq![body].drop_last() =~= Seq::<Seq<char>>::empty());
    assert(seq![body].last() == body);
    reveal_with_fuel(block_calls, 2);
    if b.len() > 0 {
        assert((a + b).drop_last() =~= a + b.drop_last());
        assert((a + b).last() == b.last());
        law_bodies_give_calls(a, b.drop_last(), body);
        let before = block_calls(a) + block_calls(b.drop_last());
        if let Some(c) = block_call(b.last()) {
            assert(before.push(c) =~= block_calls(a) + block_calls(b.drop_last()).push(c));
        }
    } else {
        assert(a + b =~= a);
        assert(block_calls(a) + block_calls(b) =~= block_calls(a));
    }
}

/// Each name and its arguments become a call in their place.
pub proof fn law_calls_in_their_places(list: Seq<(Seq<char>, Seq<char>)>, first: u64, k: int)
    requires
        0 <= k < list.len(),
    ensures
        numbered_calls(list, first).len() == list.len(),
        is_call(numbered_calls(list, first)[k], first, k, list[k].0, list[k].1),
{
}

/// A content gives the calls of what it is read as: of its values; of the bodies of its blocks,
/// where nothing is left over; and of its invocations, where all of them are complete. It gives
/// none where it is read as nothing, or where there would be none.
pub proof fn law_content_gives_calls(s: Seq<char>, first: u64)
    ensures
        contents(s) is Nothing || contents(s) is Fault ==> content_calls(s, first) is None
            && content_ids(s) == 0,
        contents(s) matches Contents::Items(items) ==> content_calls(s, first) == item_calls(
            items,
            first,
        ) && content_ids(s) == named_items(items),
        contents(s) is Blocks ==> {
            let list = block_calls(blocks(s).bodies);
            &&& content_calls(s, first) is Some <==> blocks(s).complete && list.len() > 0
            &&& content_calls(s, first) matches Some(calls) ==> calls == numbered_calls(list, first)
            &&& content_ids(s) == list.len()
        },
        contents(s) is Invokes ==> {
            let scan = invocations(s);
            &&& content_calls(s, first) is Some <==> scan.end is Done && scan.found.len() > 0
            &&& content_calls(s, first) matches Some(calls) ==> calls == invoke_calls(
                scan.found,
                first,
            )
            &&& content_ids(s) == scan.found.len()
        },
        content_faults(s) <==> contents(s) is Fault || contents(s) is Invokes && invocations(
            s,
        ).end is Fault,
{
}

// ---------------------------------------------------------------------------------------
// Lists of blocks
// ---------------------------------------------------------------------------------------
/// The first block is read: the text before it is passed over, its body goes to the first end
/// tag behind it, and what stands behind that is read next.
pub proof fn law_block_read(gap: Seq<char>, body: Seq<char>, behind: Seq<char>)
    requires
        first_behind(gap, "<|tool_call|>"@, body + "<|tool_call_end|>"@ + behind),
        first_behind(body, "<|tool_call_end|>"@, behind),
    ensures
        blocks(gap + "<|tool_call|>"@ + (body + "<|tool_call_end|>"@ + behind)) == (Blocks {
            bodies: seq![body] + blocks(behind).bodies,
            complete: blocks(behind).complete,
        }),
{
    reveal_strlit("<|tool_call|>");
    reveal_strlit("<|tool_call_end|>");
    let start = "<|tool_call|>"@;
    let end = "<|tool_call_end|>"@;
    let rest = body + end + behind;
    let s = gap + start + rest;
    law_found_first(gap, start, rest);
    law_found_first(body, end, behind);
    assert(s.skip((gap.len() + start.len()) as int) =~= rest);
    assert(rest.take(body.len() as int) =~= body);
    assert(rest.skip((body.len() + end.len()) as int) =~= behind);
}

/// Where no block of a single call stands in a text, a list of calls in its tags is read in the
/// same way.
pub proof fn law_list_read(gap: Seq<char>, body: Seq<char>, behind: Seq<char>)
    requires
        !contains(
            gap + "<|tool_calls_begin|>"@ + (body + "<|tool_calls_end|>"@ + behind),
            "<|tool_call|>"@,
        ),
        first_behind(gap, "<|tool_calls_begin|>"@, body + "<|tool_calls_end|>"@ + behind),
        first_behind(body, "<|tool_calls_end|>"@, behind),
    ensures
        blocks(gap + "<|tool_calls_begin|>"@ + (body + "<|tool_calls_end|>"@ + behind)) == (
        Blocks {
            bodies: seq![body] + blocks(behind).bodies,
            complete: blocks(behind).complete,
        }),
{
    reveal_strlit("<|tool_calls_begin|>");
    reveal_strlit("<|tool_calls_end|>");
    let start = "<|tool_calls_begin|>"@;
    let end = "<|tool_calls_end|>"@;
    let rest = body + end + behind;
    let s = gap + start + rest;
    law_found_stands(s, "<|tool_call|>"@);
    law_found_first(gap, start, rest);
    law_found_first(body, end, behind);
    assert(s.skip((gap.len() + start.len()) as int) =~= rest);
    assert(rest.take(body.len() as int) =~= body);
    assert(rest.skip((body.len() + end.len()) as int) =~= behind);
}

/// A block without an end tag goes to the end of the text.
pub proof fn law_open_block_read(gap: Seq<char>, body: Seq<char>)
    requires
        first_behind(gap, "<|tool_call|>"@, body),
        !contains(body, "<|tool_call_end|>"@),
    ensures
        blocks(gap + "<|tool_call|>"@ + body) == (Blocks { bodies: seq![body], complete: true }),
{
    reveal_strlit("<|tool_call|>");
    let start = "<|tool_call|>"@;
    law_found_first(gap, start, body);
    law_found_stands(body, "<|tool_call_end|>"@);
    assert((gap + start + body).skip((gap.len() + start.len()) as int) =~= body);
    let none = Seq::<char>::empty();
    assert(blocks(none).bodies =~= Seq::<Seq<char>>::empty());
    assert(seq![body] + blocks(none).bodies =~= seq![body]);
}

/// Text in which no block begins is left over, unless it is empty.
pub proof fn law_text_left_over(s: Seq<char>)
    requires
        !contains(s, "<|tool_call|>"@),
        !contains(s, "<|tool_calls_begin|>"@),
    ensures
        blocks(s).bodies.len() == 0,
        blocks(s).complete <==> s.len() == 0,
{
    law_found_stands(s, "<|tool_call|>"@);
    law_found_stands(s, "<|tool_calls_begin|>"@);
}

// ---------------------------------------------------------------------------------------
// Identifiers
// ---------------------------------------------------------------------------------------
/// The value of a lower-case hexadecimal digit.
pub open spec fn hex_value_of(c: char) -> nat {
    if '0' <= c <= '9' {
        (c as int - '0' as int) as nat
    } else if 'a' <= c <= 'f' {
        (10 + (c as int - 'a' as int)) as nat
    } else {
        16
    }
}

/// The number that some hexadecimal digits stand for.
pub open spec fn hex_value(s: Seq<char>) -> nat
    decreases s.len(),
{
    if s.len() == 0 {
        0
    } else {
        16 * hex_value(s.drop_last()) + hex_value_of(s.last())
    }
}

/// Sixteen to the power of `k`.
pub open spec fn sixteens(k: nat) -> nat
    decreases k,
{
    if k == 0 {
        1
    } else {
        16 * sixteens((k - 1) as nat)
    }
}

proof fn lemma_hex_value(n: nat, k: nat)
    requires
        n < sixteens(k),
    ensures
        hex_digits(n, k).len() == k,
        hex_value(hex_digits(n, k)) == n,
    decreases k,
{
    if k > 0 {
        let s = hex_digits(n, k);
        assert(n / 16 < sixteens((k - 1) as nat)) by (nonlinear_arith)
            requires
                n < 16 * sixteens((k - 1) as nat),
        ;
        lemma_hex_value(n / 16, (k - 1) as nat);
        assert(s.drop_last() =~= hex_digits(n / 16, (k - 1) as nat));
        assert(hex_value_of(s.last()) == n % 16);
    }
}

/// An identifier is a fixed prefix and the hexadecimal digits of its number.
pub proof fn law_call_id_holds_number(n: u64)
    ensures
        call_id(n).take(5) == "call_"@,
        hex_value(call_id(n).skip(5)) == n,
        call_id(n).len() == 21,
{
    reveal_strlit("call_");
    assert(sixteens(16) == 0x1_0000_0000_0000_0000) by {
        reveal_with_fuel(sixteens, 17);
    }
    lemma_hex_value(n as nat, 16);
    assert(call_id(n).take(5) =~= "call_"@);
    assert(call_id(n).skip(5) =~= hex_digits(n as nat, 16));
}

/// Numbers follow each other, and after the greatest comes zero.
pub proof fn law_numbers_follow(first: u64, k: nat)
    ensures
        first + k <= u64::MAX ==> nth_id(first, k) == first + k,
        nth_id(u64::MAX, 1) == 0,
        nth_id(nth_id(first, k), 1) == nth_id(first, k + 1),
{
}

} // verus!
