//! A terminal client for the Bitwarden command line tool: it reads the vault
//! listing that `bw` prints, keeps the accounts in memory with their
//! usernames and passwords encrypted under a per-session key, and opens one
//! account at a time for display or for the clipboard.
//!
//! This crate holds the logic: reading the pretty-printed listing into
//! records and items, the `bw unlock` session key, the application state and
//! how key presses change it. Terminal, clipboard and process handling live
//! outside it.
use vstd::prelude::*;

pub mod app;
pub mod secrets;
pub mod text;
pub mod ui;

use crate::text::{
    chars_of, range_contains, range_eq, range_starts_with, split_ranges,
    string_of_range, trim_range,
};

verus! {

/// One vault entry as shown to the user.
#[derive(Debug)]
pub struct Item {
    pub name: String,
    pub user: String,
    pub pass: String,
}

// ---------------------------------------------------------------------------
// Collecting the objects of a pretty-printed listing
// ---------------------------------------------------------------------------

/// The state of the line-by-line collection of objects.
pub struct Collect {
    /// Inside an object.
    pub reading: bool,
    /// The lines gathered since the start; never reset.
    pub current: Seq<Seq<char>>,
    /// What was gathered at each object's end.
    pub parsed: Seq<Seq<Seq<char>>>,
}

/// How one line changes the collection: `"  {"` opens an object, `"  },"`
/// closes it and records every line gathered so far, and any other line is
/// gathered while inside an object.
pub open spec fn collect_step(st: Collect, line: Seq<char>) -> Collect {
    if line == "  {"@ {
        Collect { reading: true, current: st.current, parsed: st.parsed }
    } else if line == "  },"@ {
        Collect { reading: false, current: st.current, parsed: st.parsed.push(st.current) }
    } else if st.reading {
        Collect { reading: st.reading, current: st.current.push(line), parsed: st.parsed }
    } else {
        st
    }
}

/// The collection after all of `lines`.
pub open spec fn collect(lines: Seq<Seq<char>>) -> Collect
    decreases lines.len(),
{
    if lines.len() == 0 {
        Collect { reading: false, current: Seq::empty(), parsed: Seq::empty() }
    } else {
        collect_step(collect(lines.drop_last()), lines.last())
    }
}

/// The number of object ends (`"  },"`) among `lines`.
pub open spec fn count_closings(lines: Seq<Seq<char>>) -> nat
    decreases lines.len(),
{
    if lines.len() == 0 {
        0
    } else {
        count_closings(lines.drop_last()) + if lines.last() == "  },"@ {
            1nat
        } else {
            0nat
        }
    }
}

/// The texts of a list of string slices.
pub open spec fn str_texts(v: Seq<&str>) -> Seq<Seq<char>> {
    v.map_values(|s: &str| s@)
}

/// The texts of a list of strings.
pub open spec fn string_texts(v: Seq<String>) -> Seq<Seq<char>> {
    v.map_values(|s: String| s@)
}

/// Gathers the lines of the objects of a pretty-printed listing: for each
/// object end, the lines gathered inside objects up to that point.
pub fn parse_items(objects: Vec<&str>) -> (parsed: Vec<Vec<String>>)
    ensures
        parsed@.len() == collect(str_texts(objects@)).parsed.len(),
        forall|i: int|
            0 <= i < parsed@.len() ==> string_texts(#[trigger] parsed@[i]@) == collect(
                str_texts(objects@),
            ).parsed[i],
{
    let open_line = chars_of("  {");
    let close_line = chars_of("  },");
    let mut reading = false;
    let mut parsed: Vec<Vec<String>> = Vec::new();
    let mut current_object: Vec<String> = Vec::new();
    let ghost lines = str_texts(objects@);
    for k in 0..objects.len()
        invariant
            lines == str_texts(objects@),
            open_line@ == "  {"@,
            close_line@ == "  },"@,
            collect(lines.take(k as int)).reading == reading,
            collect(lines.take(k as int)).current == string_texts(current_object@),
            collect(lines.take(k as int)).parsed.len() == parsed@.len(),
            forall|i: int|
                0 <= i < parsed@.len() ==> string_texts(#[trigger] parsed@[i]@) == collect(
                    lines.take(k as int),
                ).parsed[i],
    {
        let obj: &str = objects[k];
        let line = chars_of(obj);
        let n = line.len();
        proof {
            assert(lines.take(k + 1).drop_last() =~= lines.take(k as int));
            assert(lines[k as int] == obj@);
            assert(line@.subrange(0, n as int) =~= line@);
        }
        if range_eq(&line, 0, n, &open_line) {
            reading = true;
        } else if range_eq(&line, 0, n, &close_line) {
            reading = false;
            let ghost before = parsed@;
            parsed.push(current_object.clone());
            proof {
                assert forall|i: int| 0 <= i < parsed@.len() implies string_texts(
                    #[trigger] parsed@[i]@,
                ) == collect(lines.take(k + 1)).parsed[i] by {
                    if i < before.len() {
                        assert(parsed@[i] == before[i]);
                    } else {
                        assert(string_texts(parsed@[i]@) =~= string_texts(current_object@));
                    }
                }
            }
        } else if reading {
            let ghost before = current_object@;
            current_object.push(String::from_str(obj));
            proof {
                assert(string_texts(current_object@) =~= string_texts(before).push(obj@));
            }
        }
    }
    proof {
        assert(lines.take(objects@.len() as int) =~= lines);
    }
    parsed
}

// ---------------------------------------------------------------------------
// Cleaning a value
// ---------------------------------------------------------------------------

/// The inputs on which the value cleaning goes through: a value that starts
/// with a quote has, after that quote, the closing `",` (where it ends with a
/// comma) or `"` (where it does not).
pub open spec fn clean_string_ok(input: Seq<char>) -> bool {
    text::starts_with(input, seq!['"']) ==> if text::ends_with(input, seq![',']) {
        text::ends_with(input.drop_first(), seq!['"', ','])
    } else {
        text::ends_with(input.drop_first(), seq!['"'])
    }
}

/// Checks the quoting of `input` and gives it back trimmed.
pub fn clean_string(input: String) -> (r: String)
    requires
        clean_string_ok(input@),
    ensures
        r@ == text::trim(input@),
        text::is_trimmed(r@),
{
    let v = chars_of(input.as_str());
    let (a, b) = trim_range(&v, 0, v.len());
    proof {
        assert(v@.subrange(0, v@.len() as int) =~= v@);
    }
    string_of_range(&v, a, b)
}

// ---------------------------------------------------------------------------
// Building an item from the lines of an object
// ---------------------------------------------------------------------------

/// The three fields of an item, as texts.
pub struct Fields {
    pub name: Seq<char>,
    pub user: Seq<char>,
    pub pass: Seq<char>,
}

/// The text after the first `:` of `line`, trimmed.
pub open spec fn raw_value(line: Seq<char>) -> Seq<char> {
    text::trim(text::split(line, ':')[1])
}

/// The value of a `"key": value,` line: a quoted value without its quotes,
/// its trailing `",` and surrounding space; an unquoted one without its
/// trailing comma.
pub open spec fn value_of(line: Seq<char>) -> Seq<char> {
    let n = raw_value(line);
    if text::starts_with(n, seq!['"']) {
        text::trim(text::strip_suffix(n.drop_first(), seq!['"', ',']))
    } else {
        text::strip_suffix(n, seq![','])
    }
}

/// A `"key": value,` line from which `value_of` can take the value: it has
/// a `:`, and its value ends with `",` (quoted) or `,` (unquoted).
pub open spec fn value_ok(line: Seq<char>) -> bool {
    &&& text::split(line, ':').len() >= 2
    &&& if text::starts_with(raw_value(line), seq!['"']) {
        text::ends_with(raw_value(line).drop_first(), seq!['"', ','])
    } else {
        text::ends_with(raw_value(line), seq![','])
    }
}

/// The line names one of the three fields of an item.
pub open spec fn is_field_line(line: Seq<char>) -> bool {
    text::contains(line, "\"name\":"@) || text::contains(line, "\"username\":"@) || text::contains(
        line,
        "\"password\":"@,
    )
}

/// How one line changes the fields: a `"name":` line sets the name, else a
/// `"username":` line the user, else a `"password":` line the password.
pub open spec fn field_step(f: Fields, line: Seq<char>) -> Fields {
    if text::contains(line, "\"name\":"@) {
        Fields { name: value_of(line), user: f.user, pass: f.pass }
    } else if text::contains(line, "\"username\":"@) {
        Fields { name: f.name, user: value_of(line), pass: f.pass }
    } else if text::contains(line, "\"password\":"@) {
        Fields { name: f.name, user: f.user, pass: value_of(line) }
    } else {
        f
    }
}

/// The fields after all of `lines`, starting from empty ones.
pub open spec fn item_fields(lines: Seq<Seq<char>>) -> Fields
    decreases lines.len(),
{
    if lines.len() == 0 {
        Fields { name: Seq::empty(), user: Seq::empty(), pass: Seq::empty() }
    } else {
        field_step(item_fields(lines.drop_last()), lines.last())
    }
}

/// Every field line of the object has a value that `value_of` can take.
pub open spec fn object_ok(lines: Seq<Seq<char>>) -> bool {
    forall|i: int| 0 <= i < lines.len() && is_field_line(#[trigger] lines[i]) ==> value_ok(lines[i])
}

/// The range of the value of a field line `v[0..v.len()]`.
fn value_range(v: &Vec<char>) -> (r: (usize, usize))
    requires
        value_ok(v@),
    ensures
        r.0 <= r.1 <= v.len(),
        v@.subrange(r.0 as int, r.1 as int) == value_of(v@),
{
    let quote = chars_of("\"");
    proof {
        reveal_strlit("\"");
        assert(quote@ =~= seq!['"']);
        assert(v@.subrange(0, v@.len() as int) =~= v@);
    }
    let parts = split_ranges(v, 0, v.len(), ':');
    let (p0, p1) = parts[1];
    proof {
        assert(text::pieces(v@, parts@)[1] == v@.subrange(p0 as int, p1 as int));
    }
    let (a, b) = trim_range(v, p0, p1);
    let ghost n = v@.subrange(a as int, b as int);
    if range_starts_with(v, a, b, &quote) {
        proof {
            assert(n.drop_first() =~= v@.subrange(a + 1, b as int));
        }
        let (c, d) = trim_range(v, a + 1, b - 2);
        proof {
            assert(text::strip_suffix(n.drop_first(), seq!['"', ',']) =~= v@.subrange(
                a + 1,
                b - 2,
            ));
        }
        (c, d)
    } else {
        proof {
            assert(text::strip_suffix(n, seq![',']) =~= v@.subrange(a as int, b - 1));
        }
        (a, b - 1)
    }
}

/// Builds an item from the lines of one object; later field lines override
/// earlier ones.
pub fn build_item(object: Vec<String>) -> (item: Item)
    requires
        object_ok(string_texts(object@)),
    ensures
        item.name@ == item_fields(string_texts(object@)).name,
        item.user@ == item_fields(string_texts(object@)).user,
        item.pass@ == item_fields(string_texts(object@)).pass,
{
    let name_key = chars_of("\"name\":");
    let user_key = chars_of("\"username\":");
    let pass_key = chars_of("\"password\":");
    let mut name = String::new();
    let mut user = String::new();
    let mut pass = String::new();
    let ghost lines = string_texts(object@);
    for k in 0..object.len()
        invariant
            lines == string_texts(object@),
            object_ok(lines),
            name_key@ == "\"name\":"@,
            user_key@ == "\"username\":"@,
            pass_key@ == "\"password\":"@,
            item_fields(lines.take(k as int)) == (Fields { name: name@, user: user@, pass: pass@ }),
    {
        let line = chars_of(object[k].as_str());
        let n = line.len();
        proof {
            assert(lines.take(k + 1).drop_last() =~= lines.take(k as int));
            assert(lines[k as int] == line@);
            assert(line@.subrange(0, n as int) =~= line@);
        }
        if range_contains(&line, 0, n, &name_key) {
            let (a, b) = value_range(&line);
            name = string_of_range(&line, a, b);
        } else if range_contains(&line, 0, n, &user_key) {
            let (a, b) = value_range(&line);
            user = string_of_range(&line, a, b);
        } else if range_contains(&line, 0, n, &pass_key) {
            let (a, b) = value_range(&line);
            pass = string_of_range(&line, a, b);
        }
    }
    proof {
        assert(lines.take(object@.len() as int) =~= lines);
    }
    Item { name, user, pass }
}

/// A line that names none of the three fields changes nothing: inserting it
/// anywhere into an object leaves the item's fields, and whether the item
/// can be built, as they were.
pub proof fn lemma_build_item_ignores_other_lines(lines: Seq<Seq<char>>, k: int, l: Seq<char>)
    requires
        0 <= k <= lines.len(),
        !is_field_line(l),
    ensures
        item_fields(lines.insert(k, l)) == item_fields(lines),
        object_ok(lines.insert(k, l)) == object_ok(lines),
    decreases lines.len(),
{
    let ins = lines.insert(k, l);
    if k == lines.len() {
        assert(ins.drop_last() =~= lines);
        assert(ins.last() == l);
    } else {
        lemma_build_item_ignores_other_lines(lines.drop_last(), k, l);
        assert(ins.drop_last() =~= lines.drop_last().insert(k, l));
        assert(ins.last() == lines.last());
    }
    assert(object_ok(ins) == object_ok(lines)) by {
        if object_ok(lines) {
            assert forall|i: int| 0 <= i < ins.len() && is_field_line(#[trigger] ins[i]) implies value_ok(ins[i]) by {
                if i < k {
                    assert(ins[i] == lines[i]);
                } else if i > k {
                    assert(ins[i] == lines[i - 1]);
                }
            }
        }
        if object_ok(ins) {
            assert forall|i: int| 0 <= i < lines.len() && is_field_line(#[trigger] lines[i]) implies value_ok(lines[i]) by {
                if i < k {
                    assert(ins[i] == lines[i]);
                } else {
                    assert(ins[i + 1] == lines[i]);
                }
            }
        }
    }
}

/// A listing line `key: "value"`, with a trailing comma where `comma`.
pub open spec fn quoted_line(key: Seq<char>, value: Seq<char>, comma: bool) -> Seq<char> {
    key + seq![':', ' ', '"'] + value + seq!['"'] + if comma {
        seq![',']
    } else {
        Seq::<char>::empty()
    }
}

/// `s` holds no `c`.
pub open spec fn lacks(s: Seq<char>, c: char) -> bool {
    forall|j: int| 0 <= j < s.len() ==> s[j] != c
}

/// The text after the first `:` of a quoted line, and that text trimmed.
pub proof fn lemma_quoted_line_parts(key: Seq<char>, value: Seq<char>, comma: bool)
    requires
        lacks(key, ':'),
        lacks(value, ':'),
    ensures
        text::split(quoted_line(key, value, comma), ':').len() == 2,
        text::split(quoted_line(key, value, comma), ':')[1] == seq![' ', '"'] + value + seq!['"']
            + if comma {
            seq![',']
        } else {
            Seq::<char>::empty()
        },
        text::trim(text::split(quoted_line(key, value, comma), ':')[1]) == seq!['"'] + value
            + seq!['"'] + if comma {
            seq![',']
        } else {
            Seq::<char>::empty()
        },
{
    let tail = if comma {
        seq![',']
    } else {
        Seq::<char>::empty()
    };
    let rest = seq![' ', '"'] + value + seq!['"'] + tail;
    let line = quoted_line(key, value, comma);
    assert(line =~= key + seq![':'] + rest);
    text::lemma_split_at_first(key, ':', rest);
    assert forall|j: int| 0 <= j < rest.len() implies rest[j] != ':' by {
        if 2 <= j < 2 + value.len() {
            assert(rest[j] == value[j - 2]);
        }
    }
    text::lemma_split_none(rest, ':');
    assert(text::split(line, ':') =~= seq![key, rest]);
    text::lemma_trim_is(rest, 1, rest.len() as int);
    assert(rest.subrange(1, rest.len() as int) =~= seq!['"'] + value + seq!['"'] + tail);
}

/// The value of a quoted field line `key: "value",` is the text between the
/// quotes, inner spaces kept, and `build_item` can take it.
pub proof fn lemma_value_of_quoted(key: Seq<char>, value: Seq<char>)
    requires
        lacks(key, ':'),
        lacks(value, ':'),
        text::is_trimmed(value),
    ensures
        value_of(quoted_line(key, value, true)) == value,
        value_ok(quoted_line(key, value, true)),
{
    lemma_quoted_line_parts(key, value, true);
    let n = seq!['"'] + value + seq!['"', ','];
    assert(seq!['"'] + value + seq!['"'] + seq![','] =~= n);
    assert(raw_value(quoted_line(key, value, true)) == n);
    assert(n.take(1) =~= seq!['"']);
    assert(n.drop_first() =~= value + seq!['"', ',']);
    assert(n.drop_first().skip(value.len() as int) =~= seq!['"', ',']);
    assert(text::strip_suffix(n.drop_first(), seq!['"', ',']) =~= value);
    text::lemma_trim_trimmed(value);
}

/// The last field line decides each field: a `"name":` line sets the name
/// to its value, else a `"username":` line the username, else a
/// `"password":` line the password, whatever earlier lines held, and the
/// other fields stay; any other line changes nothing.
pub proof fn lemma_last_field_line_decides(lines: Seq<Seq<char>>, l: Seq<char>)
    ensures
        text::contains(l, "\"name\":"@) ==> item_fields(lines.push(l)).name == value_of(l)
            && item_fields(lines.push(l)).user == item_fields(lines).user && item_fields(
            lines.push(l),
        ).pass == item_fields(lines).pass,
        !text::contains(l, "\"name\":"@) && text::contains(l, "\"username\":"@) ==> item_fields(
            lines.push(l),
        ).user == value_of(l) && item_fields(lines.push(l)).name == item_fields(lines).name
            && item_fields(lines.push(l)).pass == item_fields(lines).pass,
        !text::contains(l, "\"name\":"@) && !text::contains(l, "\"username\":"@) && text::contains(
            l,
            "\"password\":"@,
        ) ==> item_fields(lines.push(l)).pass == value_of(l) && item_fields(lines.push(l)).name
            == item_fields(lines).name && item_fields(lines.push(l)).user == item_fields(lines).user,
        !is_field_line(l) ==> item_fields(lines.push(l)) == item_fields(lines),
{
    assert(lines.push(l).drop_last() =~= lines);
}

/// How one line changes the collection: `"  {"` starts reading, `"  },"`
/// stops it and records what was gathered, and any other line read inside
/// an object is gathered as it is (and outside one is passed over).
pub proof fn lemma_collect_line(lines: Seq<Seq<char>>, l: Seq<char>)
    ensures
        l == "  {"@ ==> collect(lines.push(l)).reading && collect(lines.push(l)).current
            == collect(lines).current && collect(lines.push(l)).parsed == collect(lines).parsed,
        l == "  },"@ ==> !collect(lines.push(l)).reading && collect(lines.push(l)).current
            == collect(lines).current && collect(lines.push(l)).parsed == collect(lines).parsed.push(
            collect(lines).current,
        ),
        l != "  {"@ && l != "  },"@ && collect(lines).reading ==> collect(lines.push(l)).reading
            && collect(lines.push(l)).current == collect(lines).current.push(l) && collect(
            lines.push(l),
        ).parsed == collect(lines).parsed,
        l != "  {"@ && l != "  },"@ && !collect(lines).reading ==> collect(lines.push(l))
            == collect(lines),
{
    reveal_strlit("  {");
    reveal_strlit("  },");
    assert("  {"@.len() != "  },"@.len());
    assert(lines.push(l).drop_last() =~= lines);
}

// ---------------------------------------------------------------------------
// The session key that `bw unlock` prints
// ---------------------------------------------------------------------------

/// The key in the first of `lines` that holds `export`: the text between its
/// first and second `"`; `None` where no line holds `export`, or the first
/// that does has no `"`.
pub open spec fn key_in_lines(lines: Seq<Seq<char>>) -> Option<Seq<char>>
    decreases lines.len(),
{
    if lines.len() == 0 {
        None
    } else if text::contains(lines[0], "export"@) {
        let parts = text::split(lines[0], '"');
        if parts.len() >= 2 {
            Some(parts[1])
        } else {
            None
        }
    } else {
        key_in_lines(lines.drop_first())
    }
}

/// The session key in the output of `bw unlock`, whose lines include one
/// like `$ export BW_SESSION="<key>"`.
pub open spec fn session_key(output: Seq<char>) -> Option<Seq<char>> {
    key_in_lines(text::split(output, '\n'))
}

/// One step through the lines in search of the session key.
proof fn lemma_key_in_lines_step(ls: Seq<Seq<char>>, i: int)
    requires
        0 <= i < ls.len(),
    ensures
        key_in_lines(ls.skip(i)) == if text::contains(ls[i], "export"@) {
            if text::split(ls[i], '"').len() >= 2 {
                Some(text::split(ls[i], '"')[1])
            } else {
                None
            }
        } else {
            key_in_lines(ls.skip(i + 1))
        },
{
    assert(ls.skip(i)[0] == ls[i]);
    assert(ls.skip(i).drop_first() =~= ls.skip(i + 1));
}

/// The session key is the whole text between the first two quotes of the
/// first line that holds `export`: where that line is `pre "key" post`, with
/// no quote in `pre` or `key`, the key found is `key`, of its full length.
pub proof fn lemma_session_key_is_quoted_text(
    output: Seq<char>,
    i: int,
    pre: Seq<char>,
    key: Seq<char>,
    post: Seq<char>,
)
    requires
        0 <= i < text::split(output, '\n').len(),
        forall|j: int|
            0 <= j < i ==> !text::contains(#[trigger] text::split(output, '\n')[j], "export"@),
        text::contains(text::split(output, '\n')[i], "export"@),
        text::split(output, '\n')[i] == pre + seq!['"'] + key + seq!['"'] + post,
        lacks(pre, '"'),
        lacks(key, '"'),
    ensures
        session_key(output) == Some(key),
{
    let lines = text::split(output, '\n');
    let line = lines[i];
    assert(line =~= pre + seq!['"'] + (key + seq!['"'] + post));
    text::lemma_split_at_first(pre, '"', key + seq!['"'] + post);
    text::lemma_split_at_first(key, '"', post);
    assert(text::split(line, '"')[1] == key);
    lemma_key_in_lines_found(lines, i);
}

/// The search for the key stops at the first line that holds `export`.
proof fn lemma_key_in_lines_found(lines: Seq<Seq<char>>, i: int)
    requires
        0 <= i < lines.len(),
        forall|j: int| 0 <= j < i ==> !text::contains(#[trigger] lines[j], "export"@),
        text::contains(lines[i], "export"@),
    ensures
        key_in_lines(lines) == if text::split(lines[i], '"').len() >= 2 {
            Some(text::split(lines[i], '"')[1])
        } else {
            None
        },
    decreases i,
{
    if i > 0 {
        let rest = lines.drop_first();
        assert(!text::contains(lines[0], "export"@));
        assert forall|j: int| 0 <= j < i - 1 implies !text::contains(#[trigger] rest[j], "export"@) by {
            assert(rest[j] == lines[j + 1]);
        }
        assert(rest[i - 1] == lines[i]);
        lemma_key_in_lines_found(rest, i - 1);
    }
}

/// A session key holds no quote and no line break.
pub proof fn lemma_session_key_is_a_token(output: Seq<char>)
    ensures
        session_key(output) matches Some(k) ==> forall|j: int|
            0 <= j < k.len() ==> k[j] != '"' && k[j] != '\n',
{
    let lines = text::split(output, '\n');
    text::lemma_split_pieces_avoid(output, '\n', '\n');
    lemma_key_in_lines_token(lines);
}

/// The key found in lines without line breaks is a token.
proof fn lemma_key_in_lines_token(lines: Seq<Seq<char>>)
    requires
        forall|i: int, j: int| 0 <= i < lines.len() && 0 <= j < lines[i].len() ==> #[trigger] lines[i][j] != '\n',
    ensures
        key_in_lines(lines) matches Some(k) ==> forall|j: int|
            0 <= j < k.len() ==> k[j] != '"' && k[j] != '\n',
    decreases lines.len(),
{
    if lines.len() > 0 {
        if text::contains(lines[0], "export"@) {
            assert forall|j: int| 0 <= j < lines[0].len() implies lines[0][j] != '\n' by {
                assert(lines[0][j] != '\n');
            }
            text::lemma_split_pieces_avoid(lines[0], '"', '\n');
        } else {
            let rest = lines.drop_first();
            assert forall|i: int, j: int| 0 <= i < rest.len() && 0 <= j < rest[i].len() implies #[trigger] rest[i][j] != '\n' by {
                assert(rest[i] == lines[i + 1]);
            }
            lemma_key_in_lines_token(rest);
        }
    }
}

/// Finds the session key in the output of `bw unlock`: the quoted text of
/// the first line that holds `export`.
pub fn extract_session_key(output: &str) -> (r: Option<String>)
    ensures
        match r {
            Some(k) => session_key(output@) == Some(k@),
            None => session_key(output@) is None,
        },
        r matches Some(k) ==> forall|j: int| 0 <= j < k@.len() ==> k@[j] != '"' && k@[j] != '\n',
{
    let v = chars_of(output);
    let export = chars_of("export");
    let lines = split_ranges(&v, 0, v.len(), '\n');
    let ghost all = text::pieces(v@, lines@);
    proof {
        assert(v@.subrange(0, v@.len() as int) =~= v@);
        assert(all.skip(0) =~= all);
    }
    let mut i: usize = 0;
    while i < lines.len()
        invariant
            0 <= i <= lines@.len(),
            all == text::pieces(v@, lines@),
            session_key(output@) == key_in_lines(all.skip(i as int)),
            export@ == "export"@,
            forall|j: int| 0 <= j < lines@.len() ==> (#[trigger] lines@[j]).0 <= lines@[j].1 <= v@.len(),
        decreases lines.len() - i,
    {
        let (a, b) = lines[i];
        proof {
            lemma_key_in_lines_step(all, i as int);
            assert(all[i as int] == v@.subrange(a as int, b as int));
        }
        if range_contains(&v, a, b, &export) {
            let parts = split_ranges(&v, a, b, '"');
            if parts.len() >= 2 {
                let (c, d) = parts[1];
                proof {
                    assert(text::pieces(v@, parts@)[1] == v@.subrange(c as int, d as int));
                }
                let key = string_of_range(&v, c, d);
                proof {
                    lemma_session_key_is_a_token(output@);
                    let k = session_key(output@).unwrap();
                    assert(k == key@);
                    assert forall|j: int| 0 <= j < key@.len() implies key@[j] != '"' && key@[j]
                        != '\n' by {
                        assert(k[j] == key@[j]);
                    }
                }
                return Some(key);
            }
            return None;
        }
        i = i + 1;
    }
    proof {
        assert(all.skip(i as int) =~= Seq::<Seq<char>>::empty());
    }
    None
}

// ---------------------------------------------------------------------------
// Laws of the collection of objects
// ---------------------------------------------------------------------------

/// `a` is a prefix of `b`.
pub open spec fn is_prefix(a: Seq<Seq<char>>, b: Seq<Seq<char>>) -> bool {
    a.len() <= b.len() && b.take(a.len() as int) == a
}

/// The collection records one object per object end, and never forgets a
/// line: each recorded object is a prefix of every later one and of the
/// lines gathered so far.
pub proof fn lemma_collect_grows(lines: Seq<Seq<char>>)
    ensures
        collect(lines).parsed.len() == count_closings(lines),
        forall|i: int|
            0 <= i < collect(lines).parsed.len() ==> is_prefix(
                #[trigger] collect(lines).parsed[i],
                collect(lines).current,
            ),
        forall|i: int, j: int|
            0 <= i < j < collect(lines).parsed.len() ==> is_prefix(
                #[trigger] collect(lines).parsed[i],
                #[trigger] collect(lines).parsed[j],
            ),
    decreases lines.len(),
{
    reveal_strlit("  {");
    reveal_strlit("  },");
    assert("  {"@.len() != "  },"@.len());
    if lines.len() > 0 {
        let prev = collect(lines.drop_last());
        let line = lines.last();
        lemma_collect_grows(lines.drop_last());
        let now = collect(lines);
        assert(now == collect_step(prev, line));
        if line == "  {"@ {
        } else if line == "  },"@ {
            assert(prev.current.take(prev.current.len() as int) =~= prev.current);
            assert forall|i: int, j: int|
                0 <= i < j < now.parsed.len() implies is_prefix(
                #[trigger] now.parsed[i],
                #[trigger] now.parsed[j],
            ) by {
                if j == now.parsed.len() - 1 {
                    assert(now.parsed[j] == prev.current);
                    assert(now.parsed[i] == prev.parsed[i]);
                } else {
                    assert(now.parsed[i] == prev.parsed[i]);
                    assert(now.parsed[j] == prev.parsed[j]);
                }
            }
            assert forall|i: int| 0 <= i < now.parsed.len() implies is_prefix(
                #[trigger] now.parsed[i],
                now.current,
            ) by {
                if i < prev.parsed.len() {
                    assert(now.parsed[i] == prev.parsed[i]);
                }
            }
        } else if prev.reading {
            assert forall|i: int| 0 <= i < now.parsed.len() implies is_prefix(
                #[trigger] now.parsed[i],
                now.current,
            ) by {
                let p = prev.parsed[i];
                assert(is_prefix(p, prev.current));
                assert(now.current.take(p.len() as int) =~= prev.current.take(p.len() as int));
            }
        }
    }
}

} // verus!
