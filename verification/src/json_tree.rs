//! A JSON value in the detail sidebar, as a tree.
//!
//! Each object and array folds; a scalar is drawn in its type's colour, and
//! clicking one copies it, with its path, `$.address.city`, said on the status
//! line.
//!
//! Read-only: editing stays in the text box, one toggle away.
use crate::domain::Status;
use crate::text::{
    a_written_number_reads_back, begins, chars_of, decimal, decimal_text, is_digit,
    lemma_decimal_len, listed, opt, push_decimal, starts_with, string_of_range, texts, toggle,
    toggled,
};
use vstd::prelude::*;
use vstd::string::*;

verus! {

/// Rows past this are not drawn; a JSON cell that large is better read as
/// text, which scrolls.
pub const MAX_ROWS: usize = 400;

/// A JSON value. A number is kept as it is written; the members of an object
/// keep the order they were written in.
#[derive(Debug)]
pub enum Json {
    Null,
    Bool(bool),
    Number(String),
    Text(String),
    Array(Vec<Json>),
    Object(Vec<(String, Json)>),
}

/// What a JSON value says.
pub enum JsonView {
    Null,
    Bool(bool),
    Number(Seq<char>),
    Text(Seq<char>),
    Array(Seq<JsonView>),
    Object(Seq<(Seq<char>, JsonView)>),
}

pub open spec fn json_view(value: Json) -> JsonView
    decreases value,
{
    match value {
        Json::Null => JsonView::Null,
        Json::Bool(flag) => JsonView::Bool(flag),
        Json::Number(text) => JsonView::Number(text@),
        Json::Text(text) => JsonView::Text(text@),
        Json::Array(items) => JsonView::Array(
            Seq::new(
                items@.len(),
                |i: int|
                    if 0 <= i < items@.len() {
                        json_view(items@[i])
                    } else {
                        JsonView::Null
                    },
            ),
        ),
        Json::Object(members) => JsonView::Object(
            Seq::new(
                members@.len(),
                |i: int|
                    if 0 <= i < members@.len() {
                        (members@[i].0@, json_view(members@[i].1))
                    } else {
                        (Seq::empty(), JsonView::Null)
                    },
            ),
        ),
    }
}

impl View for Json {
    type V = JsonView;

    open spec fn view(&self) -> JsonView {
        json_view(*self)
    }
}

/// One drawn line of the tree.
#[derive(Debug, Clone, PartialEq)]
pub struct TreeRow {
    pub depth: usize,
    /// `$.a.b[2]`: where this is, for copying and for folding.
    pub path: String,
    /// The key or index in front, if any.
    pub label: Option<String>,
    pub kind: TreeKind,
}

#[derive(Debug, Clone, PartialEq)]
pub enum TreeKind {
    /// An object or array: how many children, and whether it is open.
    Branch { array: bool, len: usize, open: bool },
    Leaf { text: String, style: LeafStyle },
}

#[derive(Debug, Clone, Copy, PartialEq, Eq, Structural)]
pub enum LeafStyle {
    String,
    Number,
    Bool,
    Null,
}

/// What a row says.
pub struct RowView {
    pub depth: int,
    pub path: Seq<char>,
    pub label: Option<Seq<char>>,
    pub kind: KindView,
}

/// What a row's value is.
pub enum KindView {
    Branch { array: bool, len: int, open: bool },
    Leaf { text: Seq<char>, style: LeafStyle },
}

impl View for TreeRow {
    type V = RowView;

    open spec fn view(&self) -> RowView {
        RowView {
            depth: self.depth as int,
            path: self.path@,
            label: opt(self.label),
            kind: match self.kind {
                TreeKind::Branch { array, len, open } => KindView::Branch {
                    array,
                    len: len as int,
                    open,
                },
                TreeKind::Leaf { text, style } => KindView::Leaf { text: text@, style },
            },
        }
    }
}

/// What each row says.
pub open spec fn row_views(rows: Seq<TreeRow>) -> Seq<RowView> {
    Seq::new(rows.len(), |i: int| rows[i]@)
}

pub open spec fn word_start(c: char) -> bool {
    ('a' <= c && c <= 'z') || ('A' <= c && c <= 'Z') || c == '_'
}

pub open spec fn word_char(c: char) -> bool {
    word_start(c) || ('0' <= c && c <= '9')
}

/// A key that reads as a bare word in a path.
pub open spec fn plain_key(key: Seq<char>) -> bool {
    &&& key.len() > 0
    &&& word_start(key[0])
    &&& forall|i: int| 0 <= i < key.len() ==> word_char(#[trigger] key[i])
}

/// A key that reads as a bare word in a path: `$.city`, not `$["first name"]`.
pub fn is_plain_key(key: &str) -> (plain: bool)
    ensures
        plain == plain_key(key@),
{
    let chars = chars_of(key);
    if chars.len() == 0 {
        return false;
    }
    let first = chars[0];
    if !((('a' <= first && first <= 'z') || ('A' <= first && first <= 'Z')) || first == '_') {
        return false;
    }
    let mut i: usize = 0;
    while i < chars.len()
        invariant
            chars@ == key@,
            i <= chars@.len(),
            forall|k: int| 0 <= k < i ==> word_char(#[trigger] key@[k]),
        decreases chars@.len() - i,
    {
        let c = chars[i];
        if !(('a' <= c && c <= 'z') || ('A' <= c && c <= 'Z') || c == '_' || ('0' <= c && c
            <= '9')) {
            assert(!word_char(key@[i as int]));
            return false;
        }
        i += 1;
    }
    true
}

pub open spec fn hex_digit(n: int) -> char {
    if n < 10 {
        (48 + n) as char
    } else {
        (87 + n) as char
    }
}

/// A character as it stands inside a JSON string.
pub open spec fn json_escaped(c: char) -> Seq<char> {
    if c == '"' {
        seq!['\\', '"']
    } else if c == '\\' {
        seq!['\\', '\\']
    } else if c == '\u{8}' {
        seq!['\\', 'b']
    } else if c == '\t' {
        seq!['\\', 't']
    } else if c == '\n' {
        seq!['\\', 'n']
    } else if c == '\u{c}' {
        seq!['\\', 'f']
    } else if c == '\r' {
        seq!['\\', 'r']
    } else if (c as u32) < 0x20 {
        seq!['\\', 'u', '0', '0', hex_digit(c as int / 16), hex_digit(c as int % 16)]
    } else {
        seq![c]
    }
}

pub open spec fn json_escaped_all(text: Seq<char>) -> Seq<char>
    decreases text.len(),
{
    if text.len() == 0 {
        Seq::empty()
    } else {
        json_escaped_all(text.drop_last()) + json_escaped(text.last())
    }
}

/// A text as a JSON string, quotes included.
pub open spec fn json_quoted(text: Seq<char>) -> Seq<char> {
    seq!['"'] + json_escaped_all(text) + seq!['"']
}

/// `serde_json::to_string` of a text, which does not fail: the text between
/// quotes, with quotes, backslashes and control characters escaped and every
/// other character as it is.
#[verifier::external_body]
fn json_string(text: &str) -> (quoted: String)
    ensures
        quoted@ == json_quoted(text@),
{
    serde_json::to_string(text).unwrap_or_default()
}

/// No object of a value has a key twice.
pub open spec fn well_keyed(value: JsonView) -> bool
    decreases value,
{
    match value {
        JsonView::Array(items) => forall|i: int|
            0 <= i < items.len() ==> well_keyed(#[trigger] items[i]),
        JsonView::Object(members) => {
            &&& forall|i: int| 0 <= i < members.len() ==> well_keyed((#[trigger] members[i]).1)
            &&& forall|i: int, j: int|
                0 <= i < j < members.len() ==> (#[trigger] members[i]).0 != (
                #[trigger] members[j]).0
        },
        _ => true,
    }
}

/// What `serde_json::from_str` reads a text as; `None` where it is not JSON.
pub uninterp spec fn json_parse(text: Seq<char>) -> Option<JsonView>;

/// What an optional value says.
pub open spec fn opt_view(value: Option<Json>) -> Option<JsonView> {
    match value {
        Some(value) => Some(value@),
        None => None,
    }
}

/// `serde_json::from_str`: the value that the text writes, named, since the
/// grammar is not written out here. An object of `serde_json` is a map, so of
/// members with one key only one is left.
#[verifier::external_body]
fn parse_json(text: &str) -> (value: Option<Json>)
    ensures
        opt_view(value) == json_parse(text@),
        value matches Some(value) ==> well_keyed(value@),
{
    serde_json::from_str(text).ok().map(own_json)
}

/// A value as `serde_json` holds it.
#[verifier::external_type_specification]
#[verifier::external_body]
pub struct ExJsonValue(serde_json::Value);

/// The same value as `serde_json::Value` holds it, member for member and in
/// order, a number as `serde_json::Number` writes it.
#[verifier::external_body]
fn own_json(value: serde_json::Value) -> Json {
    match value {
        serde_json::Value::Null => Json::Null,
        serde_json::Value::Bool(flag) => Json::Bool(flag),
        serde_json::Value::Number(number) => Json::Number(number.to_string()),
        serde_json::Value::String(text) => Json::Text(text),
        serde_json::Value::Array(items) => Json::Array(items.into_iter().map(own_json).collect()),
        serde_json::Value::Object(members) => Json::Object(
            members.into_iter().map(|(key, member)| (key, own_json(member))).collect(),
        ),
    }
}

pub open spec fn member_path(path: Seq<char>, key: Seq<char>) -> Seq<char> {
    if plain_key(key) {
        path + "."@ + key
    } else {
        path + "["@ + json_quoted(key) + "]"@
    }
}

pub open spec fn item_path(path: Seq<char>, index: nat) -> Seq<char> {
    path + "["@ + decimal(index) + "]"@
}

/// A branch shows its children unless it is folded; the root always does.
pub open spec fn is_open(path: Seq<char>, depth: int, closed: Set<Seq<char>>) -> bool {
    depth == 0 || !closed.contains(path)
}

pub open spec fn leaf_view(value: JsonView) -> KindView {
    match value {
        JsonView::Text(text) => KindView::Leaf { text, style: LeafStyle::String },
        JsonView::Number(text) => KindView::Leaf { text, style: LeafStyle::Number },
        JsonView::Bool(true) => KindView::Leaf { text: "true"@, style: LeafStyle::Bool },
        JsonView::Bool(false) => KindView::Leaf { text: "false"@, style: LeafStyle::Bool },
        _ => KindView::Leaf { text: "null"@, style: LeafStyle::Null },
    }
}

/// The rows of a value and everything open under it, parents before children
/// and children in order.
pub open spec fn walked(
    value: JsonView,
    path: Seq<char>,
    label: Option<Seq<char>>,
    depth: int,
    closed: Set<Seq<char>>,
) -> Seq<RowView>
    decreases value, 0nat,
{
    match value {
        JsonView::Object(members) => {
            let open = is_open(path, depth, closed);
            let kind = KindView::Branch { array: false, len: members.len() as int, open };
            seq![RowView { depth, path, label, kind }] + (if open {
                walked_members(members, path, depth, closed)
            } else {
                Seq::empty()
            })
        },
        JsonView::Array(items) => {
            let open = is_open(path, depth, closed);
            let kind = KindView::Branch { array: true, len: items.len() as int, open };
            seq![RowView { depth, path, label, kind }] + (if open {
                walked_items(items, path, depth, closed)
            } else {
                Seq::empty()
            })
        },
        leaf => seq![RowView { depth, path, label, kind: leaf_view(leaf) }],
    }
}

/// The rows under an object's members, each in turn.
pub open spec fn walked_members(
    members: Seq<(Seq<char>, JsonView)>,
    path: Seq<char>,
    depth: int,
    closed: Set<Seq<char>>,
) -> Seq<RowView>
    decreases members, members.len(),
{
    if members.len() == 0 {
        Seq::empty()
    } else {
        let last = members[members.len() - 1];
        walked_members(members.drop_last(), path, depth, closed) + walked(
            last.1,
            member_path(path, last.0),
            Some(last.0),
            depth + 1,
            closed,
        )
    }
}

/// The rows under an array's items, each in turn.
pub open spec fn walked_items(
    items: Seq<JsonView>,
    path: Seq<char>,
    depth: int,
    closed: Set<Seq<char>>,
) -> Seq<RowView>
    decreases items, items.len(),
{
    if items.len() == 0 {
        Seq::empty()
    } else {
        let index = (items.len() - 1) as nat;
        walked_items(items.drop_last(), path, depth, closed) + walked(
            items[items.len() - 1],
            item_path(path, index),
            Some(decimal(index)),
            depth + 1,
            closed,
        )
    }
}

/// No more rows than are drawn.
pub open spec fn cut(rows: Seq<RowView>) -> Seq<RowView> {
    if rows.len() <= MAX_ROWS {
        rows
    } else {
        rows.take(MAX_ROWS as int)
    }
}

/// The paths that a list of them folds.
pub open spec fn folds(closed: Seq<String>) -> Set<Seq<char>> {
    Set::new(|path: Seq<char>| texts(closed).contains(path))
}

proof fn lemma_cut_again(front: Seq<RowView>, more: Seq<RowView>, rest: Seq<RowView>)
    ensures
        cut(cut(front + more) + rest) == cut(front + (more + rest)),
{
    assert(front + (more + rest) == front + more + rest);
}

proof fn lemma_row_views_push(rows: Seq<TreeRow>, row: TreeRow)
    ensures
        row_views(rows.push(row)) == row_views(rows).push(row@),
{
}

fn push_row(out: &mut Vec<TreeRow>, row: TreeRow)
    requires
        old(out)@.len() < MAX_ROWS,
    ensures
        final(out)@.len() == old(out)@.len() + 1,
        row_views(final(out)@) == cut(row_views(old(out)@) + seq![row@]),
{
    proof {
        lemma_row_views_push(out@, row);
        assert(row_views(out@) + seq![row@] == row_views(out@).push(row@));
    }
    out.push(row);
}

fn member_path_text(path: &str, key: &str) -> (member: String)
    ensures
        member@ == member_path(path@, key@),
{
    let mut member: String = path.to_string();
    if is_plain_key(key) {
        member.append(".");
        member.append(key);
    } else {
        member.append("[");
        member.append(json_string(key).as_str());
        member.append("]");
    }
    member
}

fn item_path_text(path: &str, index: usize) -> (item: String)
    ensures
        item@ == item_path(path@, index as nat),
{
    let mut item: String = path.to_string();
    item.append("[");
    push_decimal(&mut item, index as u64);
    item.append("]");
    item
}

#[verifier::loop_isolation(false)]
fn walk(
    value: &Json,
    path: String,
    label: Option<String>,
    depth: usize,
    closed: &Vec<String>,
    out: &mut Vec<TreeRow>,
)
    requires
        depth <= old(out)@.len() <= MAX_ROWS,
    ensures
        old(out)@.len() <= final(out)@.len() <= MAX_ROWS,
        row_views(final(out)@) == cut(
            row_views(old(out)@) + walked(value@, path@, opt(label), depth as int, folds(closed@)),
        ),
    decreases value,
{
    let ghost before = row_views(out@);
    let ghost set = folds(closed@);
    let ghost all = walked(value@, path@, opt(label), depth as int, set);
    if out.len() >= MAX_ROWS {
        assert(cut(before + all) == before);
        return;
    }
    match value {
        Json::Object(members) => {
            let open = depth == 0 || !listed(closed, path.as_str());
            let row = TreeRow {
                depth,
                path: path.clone(),
                label,
                kind: TreeKind::Branch { array: false, len: members.len(), open },
            };
            let ghost head = row@;
            push_row(out, row);
            let ghost parts = value@->Object_0;
            if open {
                let mut i: usize = 0;
                assert(parts.take(0) == Seq::<(Seq<char>, JsonView)>::empty());
                assert(seq![head] + Seq::<RowView>::empty() == seq![head]);
                while i < members.len()
                    invariant
                        i <= members@.len(),
                        depth + 1 <= out@.len() <= MAX_ROWS,
                        row_views(out@) == cut(
                            before + (seq![head] + walked_members(
                                parts.take(i as int),
                                path@,
                                depth as int,
                                set,
                            )),
                        ),
                    decreases members@.len() - i,
                {
                    let key = &members[i].0;
                    let child_path = member_path_text(path.as_str(), key.as_str());
                    let ghost so_far = seq![head] + walked_members(
                        parts.take(i as int),
                        path@,
                        depth as int,
                        set,
                    );
                    let ghost child = walked(
                        members@[i as int].1@,
                        child_path@,
                        Some(key@),
                        depth + 1,
                        set,
                    );
                    walk(
                        &members[i].1,
                        child_path,
                        Some(key.as_str().to_string()),
                        depth + 1,
                        closed,
                        out,
                    );
                    proof {
                        let upto = parts.take(i + 1);
                        assert(upto.drop_last() == parts.take(i as int));
                        assert(upto[upto.len() - 1] == (key@, members@[i as int].1@));
                        lemma_cut_again(before, so_far, child);
                        assert(so_far + child == seq![head] + walked_members(
                            upto,
                            path@,
                            depth as int,
                            set,
                        ));
                    }
                    i += 1;
                }
                assert(parts.take(i as int) == parts);
            } else {
                assert(seq![head] + Seq::<RowView>::empty() == seq![head]);
            }
        },
        Json::Array(items) => {
            let open = depth == 0 || !listed(closed, path.as_str());
            let row = TreeRow {
                depth,
                path: path.clone(),
                label,
                kind: TreeKind::Branch { array: true, len: items.len(), open },
            };
            let ghost head = row@;
            push_row(out, row);
            let ghost parts = value@->Array_0;
            if open {
                let mut i: usize = 0;
                assert(parts.take(0) == Seq::<JsonView>::empty());
                assert(seq![head] + Seq::<RowView>::empty() == seq![head]);
                while i < items.len()
                    invariant
                        i <= items@.len(),
                        depth + 1 <= out@.len() <= MAX_ROWS,
                        row_views(out@) == cut(
                            before + (seq![head] + walked_items(
                                parts.take(i as int),
                                path@,
                                depth as int,
                                set,
                            )),
                        ),
                    decreases items@.len() - i,
                {
                    let child_path = item_path_text(path.as_str(), i);
                    let child_label = decimal_text(i as u64);
                    let ghost so_far = seq![head] + walked_items(
                        parts.take(i as int),
                        path@,
                        depth as int,
                        set,
                    );
                    let ghost child = walked(
                        items@[i as int]@,
                        child_path@,
                        Some(child_label@),
                        depth + 1,
                        set,
                    );
                    walk(&items[i], child_path, Some(child_label), depth + 1, closed, out);
                    proof {
                        let upto = parts.take(i + 1);
                        assert(upto.drop_last() == parts.take(i as int));
                        assert(upto[upto.len() - 1] == items@[i as int]@);
                        lemma_cut_again(before, so_far, child);
                        assert(so_far + child == seq![head] + walked_items(
                            upto,
                            path@,
                            depth as int,
                            set,
                        ));
                    }
                    i += 1;
                }
                assert(parts.take(i as int) == parts);
            } else {
                assert(seq![head] + Seq::<RowView>::empty() == seq![head]);
            }
        },
        Json::Text(text) => {
            let kind = TreeKind::Leaf { text: text.as_str().to_string(), style: LeafStyle::String };
            push_row(out, TreeRow { depth, path, label, kind });
        },
        Json::Number(text) => {
            let kind = TreeKind::Leaf { text: text.as_str().to_string(), style: LeafStyle::Number };
            push_row(out, TreeRow { depth, path, label, kind });
        },
        Json::Bool(flag) => {
            let text = if *flag {
                "true".to_string()
            } else {
                "false".to_string()
            };
            push_row(
                out,
                TreeRow { depth, path, label, kind: TreeKind::Leaf { text, style: LeafStyle::Bool } },
            );
        },
        Json::Null => {
            let kind = TreeKind::Leaf { text: "null".to_string(), style: LeafStyle::Null };
            push_row(out, TreeRow { depth, path, label, kind });
        },
    }
}

/// The rows of a whole value, as far as they are drawn.
pub open spec fn tree_rows(value: JsonView, closed: Set<Seq<char>>) -> Seq<RowView> {
    cut(walked(value, "$"@, None, 0, closed))
}

/// The rows to draw for `value`, skipping the children of every path in
/// `closed`. The root is always open.
pub fn rows(value: &Json, closed: &Vec<String>) -> (rows: Vec<TreeRow>)
    ensures
        row_views(rows@) == tree_rows(value@, folds(closed@)),
{
    let mut out: Vec<TreeRow> = Vec::new();
    assert(row_views(out@) + walked(value@, "$"@, None, 0, folds(closed@)) == walked(
        value@,
        "$"@,
        None,
        0,
        folds(closed@),
    ));
    walk(value, "$".to_string(), None, 0, closed, &mut out);
    out
}

/// The tree is never longer than it is drawn.
pub proof fn the_tree_stops_at_the_limit(value: JsonView, closed: Set<Seq<char>>)
    ensures
        tree_rows(value, closed).len() <= MAX_ROWS,
        walked(value, "$"@, None, 0, closed).len() >= MAX_ROWS ==> tree_rows(value, closed).len()
            == MAX_ROWS,
{
}

/// A folded branch hides its children but not itself, at any depth below the
/// root; the root is never folded.
pub proof fn a_folded_branch_is_one_row(
    value: JsonView,
    path: Seq<char>,
    label: Option<Seq<char>>,
    depth: int,
    closed: Set<Seq<char>>,
)
    requires
        value is Object || value is Array,
    ensures
        walked(value, path, label, depth, closed).len() >= 1,
        walked(value, path, label, depth, closed)[0].path == path,
        depth != 0 && closed.contains(path) ==> walked(value, path, label, depth, closed).len()
            == 1,
        walked(value, path, label, 0, closed)[0].kind matches KindView::Branch { open, .. } && open,
{
}

/// A scalar has one row, which says what the scalar is: a text and a number as
/// they are, a truth value by its word, and a null by its own.
pub proof fn a_scalar_is_read_off_its_row(
    value: JsonView,
    path: Seq<char>,
    label: Option<Seq<char>>,
    depth: int,
    closed: Set<Seq<char>>,
)
    requires
        !(value is Object || value is Array),
    ensures
        ({
            let rows = walked(value, path, label, depth, closed);
            &&& rows.len() == 1
            &&& rows[0].depth == depth
            &&& rows[0].path == path
            &&& rows[0].label == label
            &&& rows[0].kind matches KindView::Leaf { text, style }
            &&& style == LeafStyle::String <==> value is Text
            &&& style == LeafStyle::Number <==> value is Number
            &&& style == LeafStyle::Bool <==> value is Bool
            &&& style == LeafStyle::Null <==> value is Null
            &&& value matches JsonView::Text(written) ==> text == written
            &&& value matches JsonView::Number(written) ==> text == written
            &&& value matches JsonView::Bool(flag) ==> {
                &&& text == seq!['t', 'r', 'u', 'e'] <==> flag
                &&& text == seq!['f', 'a', 'l', 's', 'e'] <==> !flag
            }
            &&& value is Null ==> text == seq!['n', 'u', 'l', 'l']
        }),
{
    reveal_strlit("true");
    reveal_strlit("false");
    reveal_strlit("null");
    assert("true"@ == seq!['t', 'r', 'u', 'e']);
    assert("false"@ == seq!['f', 'a', 'l', 's', 'e']);
    assert("null"@ == seq!['n', 'u', 'l', 'l']);
    assert("true"@[0] != "false"@[0]);
}

/// Two scalars that differ never have the same row.
pub proof fn scalars_that_differ_look_different(
    a: JsonView,
    b: JsonView,
    path: Seq<char>,
    label: Option<Seq<char>>,
    depth: int,
    closed: Set<Seq<char>>,
)
    requires
        !(a is Object || a is Array),
        !(b is Object || b is Array),
        walked(a, path, label, depth, closed) == walked(b, path, label, depth, closed),
    ensures
        a == b,
{
    a_scalar_is_read_off_its_row(a, path, label, depth, closed);
    a_scalar_is_read_off_its_row(b, path, label, depth, closed);
}

/// The first row of an object or an array says which of the two it is, how many
/// children it has, and whether they follow.
pub proof fn a_branch_is_read_off_its_row(
    value: JsonView,
    path: Seq<char>,
    label: Option<Seq<char>>,
    depth: int,
    closed: Set<Seq<char>>,
)
    requires
        value is Object || value is Array,
    ensures
        ({
            let rows = walked(value, path, label, depth, closed);
            &&& rows.len() >= 1
            &&& rows[0].depth == depth
            &&& rows[0].path == path
            &&& rows[0].label == label
            &&& rows[0].kind matches KindView::Branch { array, len, open }
            &&& array == value is Array
            &&& value matches JsonView::Array(items) ==> len == items.len()
            &&& value matches JsonView::Object(members) ==> len == members.len()
            &&& open <==> (depth == 0 || !closed.contains(path))
            &&& !open ==> rows.len() == 1
        }),
{
}

proof fn lemma_member_rows(
    members: Seq<(Seq<char>, JsonView)>,
    path: Seq<char>,
    depth: int,
    closed: Set<Seq<char>>,
    k: int,
)
    requires
        0 <= k < members.len(),
    ensures
        ({
            let rows = walked_members(members, path, depth, closed);
            let from = walked_members(members.take(k), path, depth, closed).len() as int;
            let upto = walked_members(members.take(k + 1), path, depth, closed).len() as int;
            &&& 0 <= from <= upto <= rows.len()
            &&& rows.subrange(from, upto) == walked(
                members[k].1,
                member_path(path, members[k].0),
                Some(members[k].0),
                depth + 1,
                closed,
            )
        }),
    decreases members.len(),
{
    let n = members.len() - 1;
    let rows = walked_members(members, path, depth, closed);
    let before = walked_members(members.drop_last(), path, depth, closed);
    let last = walked(
        members[n].1,
        member_path(path, members[n].0),
        Some(members[n].0),
        depth + 1,
        closed,
    );
    assert(rows == before + last);
    if k < n {
        lemma_member_rows(members.drop_last(), path, depth, closed, k);
        assert(members.drop_last().take(k) == members.take(k));
        assert(members.drop_last().take(k + 1) == members.take(k + 1));
        let from = walked_members(members.take(k), path, depth, closed).len() as int;
        let upto = walked_members(members.take(k + 1), path, depth, closed).len() as int;
        assert(rows.subrange(from, upto) == before.subrange(from, upto));
    } else {
        assert(members.take(k) == members.drop_last());
        assert(members.take(k + 1) == members);
        assert(rows.subrange(before.len() as int, rows.len() as int) == last);
    }
}

proof fn lemma_item_rows(
    items: Seq<JsonView>,
    path: Seq<char>,
    depth: int,
    closed: Set<Seq<char>>,
    k: int,
)
    requires
        0 <= k < items.len(),
    ensures
        ({
            let rows = walked_items(items, path, depth, closed);
            let from = walked_items(items.take(k), path, depth, closed).len() as int;
            let upto = walked_items(items.take(k + 1), path, depth, closed).len() as int;
            &&& 0 <= from <= upto <= rows.len()
            &&& rows.subrange(from, upto) == walked(
                items[k],
                item_path(path, k as nat),
                Some(decimal(k as nat)),
                depth + 1,
                closed,
            )
        }),
    decreases items.len(),
{
    let n = items.len() - 1;
    let rows = walked_items(items, path, depth, closed);
    let before = walked_items(items.drop_last(), path, depth, closed);
    let last = walked(
        items[n],
        item_path(path, n as nat),
        Some(decimal(n as nat)),
        depth + 1,
        closed,
    );
    assert(rows == before + last);
    if k < n {
        lemma_item_rows(items.drop_last(), path, depth, closed, k);
        assert(items.drop_last().take(k) == items.take(k));
        assert(items.drop_last().take(k + 1) == items.take(k + 1));
        let from = walked_items(items.take(k), path, depth, closed).len() as int;
        let upto = walked_items(items.take(k + 1), path, depth, closed).len() as int;
        assert(rows.subrange(from, upto) == before.subrange(from, upto));
    } else {
        assert(items.take(k) == items.drop_last());
        assert(items.take(k + 1) == items);
        assert(rows.subrange(before.len() as int, rows.len() as int) == last);
    }
}

/// Every member of an open object is drawn under it, one after the other and
/// nothing else: each as itself one level deeper, with its key in front and at
/// the path that the key leads to.
pub proof fn every_member_is_drawn(
    members: Seq<(Seq<char>, JsonView)>,
    path: Seq<char>,
    label: Option<Seq<char>>,
    depth: int,
    closed: Set<Seq<char>>,
)
    requires
        depth == 0 || !closed.contains(path),
    ensures
        exists|starts: Seq<int>|
            {
                let rows = walked(JsonView::Object(members), path, label, depth, closed);
                &&& starts.len() == members.len() + 1
                &&& #[trigger] starts[0] == 1
                &&& starts[members.len() as int] == rows.len()
                &&& forall|k: int|
                    0 <= k < members.len() ==> 0 <= (#[trigger] starts[k]) <= starts[k + 1]
                        <= rows.len() && rows.subrange(starts[k], starts[k + 1]) == walked(
                        members[k].1,
                        path + (if plain_key(members[k].0) {
                            seq!['.'] + members[k].0
                        } else {
                            seq!['['] + json_quoted(members[k].0) + seq![']']
                        }),
                        Some(members[k].0),
                        depth + 1,
                        closed,
                    )
            },
{
    let rows = walked(JsonView::Object(members), path, label, depth, closed);
    let under = walked_members(members, path, depth, closed);
    let starts = Seq::new(
        members.len() + 1,
        |k: int| 1 + walked_members(members.take(k), path, depth, closed).len() as int,
    );
    assert(members.take(0) == Seq::<(Seq<char>, JsonView)>::empty());
    assert(members.take(members.len() as int) == members);
    assert(rows == seq![rows[0]] + under);
    assert(starts[0] == 1);
    assert forall|k: int| 0 <= k < members.len() implies 0 <= (#[trigger] starts[k]) <= starts[k + 1]
        <= rows.len() && rows.subrange(starts[k], starts[k + 1]) == walked(
        members[k].1,
        path + (if plain_key(members[k].0) {
            seq!['.'] + members[k].0
        } else {
            seq!['['] + json_quoted(members[k].0) + seq![']']
        }),
        Some(members[k].0),
        depth + 1,
        closed,
    ) by {
        reveal_strlit(".");
        reveal_strlit("[");
        reveal_strlit("]");
        lemma_member_rows(members, path, depth, closed, k);
        assert(rows.subrange(starts[k], starts[k + 1]) == under.subrange(
            starts[k] - 1,
            starts[k + 1] - 1,
        ));
        assert(member_path(path, members[k].0) == path + (if plain_key(members[k].0) {
            seq!['.'] + members[k].0
        } else {
            seq!['['] + json_quoted(members[k].0) + seq![']']
        }));
    }
}

/// Every item of an open array is drawn under it, one after the other and nothing
/// else: each as itself one level deeper, with its number in front and at the path
/// that the number leads to.
pub proof fn every_item_is_drawn(
    items: Seq<JsonView>,
    path: Seq<char>,
    label: Option<Seq<char>>,
    depth: int,
    closed: Set<Seq<char>>,
)
    requires
        depth == 0 || !closed.contains(path),
    ensures
        exists|starts: Seq<int>|
            {
                let rows = walked(JsonView::Array(items), path, label, depth, closed);
                &&& starts.len() == items.len() + 1
                &&& #[trigger] starts[0] == 1
                &&& starts[items.len() as int] == rows.len()
                &&& forall|k: int|
                    0 <= k < items.len() ==> 0 <= (#[trigger] starts[k]) <= starts[k + 1]
                        <= rows.len() && rows.subrange(starts[k], starts[k + 1]) == walked(
                        items[k],
                        path + seq!['['] + decimal(k as nat) + seq![']'],
                        Some(decimal(k as nat)),
                        depth + 1,
                        closed,
                    )
            },
{
    let rows = walked(JsonView::Array(items), path, label, depth, closed);
    let under = walked_items(items, path, depth, closed);
    let starts = Seq::new(
        items.len() + 1,
        |k: int| 1 + walked_items(items.take(k), path, depth, closed).len() as int,
    );
    assert(items.take(0) == Seq::<JsonView>::empty());
    assert(items.take(items.len() as int) == items);
    assert(rows == seq![rows[0]] + under);
    assert(starts[0] == 1);
    assert forall|k: int| 0 <= k < items.len() implies 0 <= (#[trigger] starts[k]) <= starts[k + 1]
        <= rows.len() && rows.subrange(starts[k], starts[k + 1]) == walked(
        items[k],
        path + seq!['['] + decimal(k as nat) + seq![']'],
        Some(decimal(k as nat)),
        depth + 1,
        closed,
    ) by {
        reveal_strlit("[");
        reveal_strlit("]");
        lemma_item_rows(items, path, depth, closed, k);
        assert(rows.subrange(starts[k], starts[k + 1]) == under.subrange(
            starts[k] - 1,
            starts[k + 1] - 1,
        ));
        assert(item_path(path, k as nat) == path + seq!['['] + decimal(k as nat) + seq![']']);
    }
}

/// What is drawn of a value is the beginning of its rows: all of them where they
/// fit, and as many as fit where they do not.
pub proof fn the_tree_is_drawn_from_its_top(value: JsonView, closed: Set<Seq<char>>)
    ensures
        ({
            let all = walked(value, seq!['$'], None, 0, closed);
            let drawn = tree_rows(value, closed);
            &&& drawn.len() == (if all.len() < 400 {
                all.len()
            } else {
                400
            })
            &&& forall|i: int| 0 <= i < drawn.len() ==> #[trigger] drawn[i] == all[i]
        }),
{
    reveal_strlit("$");
    assert("$"@ == seq!['$']);
}

/// A key reads as a bare word when it is one: letters of the alphabet, digits and
/// underscores, with no digit in front. Any other key, the empty one too, is
/// quoted.
pub proof fn bare_words_are_letters_digits_and_underscores(key: Seq<char>)
    ensures
        plain_key(key) <==> {
            &&& key.len() > 0
            &&& !(48 <= key[0] as int <= 57)
            &&& forall|i: int|
                0 <= i < key.len() ==> {
                    let c = #[trigger] key[i] as int;
                    (97 <= c <= 122) || (65 <= c <= 90) || (48 <= c <= 57) || c == 95
                }
        },
{
    if plain_key(key) {
        assert(word_char(key[0]));
        assert forall|i: int| 0 <= i < key.len() implies {
            let c = #[trigger] key[i] as int;
            (97 <= c <= 122) || (65 <= c <= 90) || (48 <= c <= 57) || c == 95
        } by {
            assert(word_char(key[i]));
        }
    } else if key.len() > 0 && word_start(key[0]) {
        let i = choose|i: int| 0 <= i < key.len() && !word_char(#[trigger] key[i]);
        let c = key[i] as int;
        assert(!((97 <= c <= 122) || (65 <= c <= 90) || (48 <= c <= 57) || c == 95));
    } else if key.len() > 0 {
        let c = key[0] as int;
        assert(!((97 <= c <= 122) || (65 <= c <= 90) || c == 95));
    }
}

/// What a child's path adds to its parent's.
pub open spec fn member_step(key: Seq<char>) -> Seq<char> {
    if plain_key(key) {
        "."@ + key
    } else {
        "["@ + json_quoted(key) + "]"@
    }
}

pub open spec fn item_step(index: nat) -> Seq<char> {
    "["@ + decimal(index) + "]"@
}

/// A path is at another or somewhere under it.
pub open spec fn is_under(path: Seq<char>, top: Seq<char>) -> bool {
    &&& path.len() >= top.len()
    &&& path.take(top.len() as int) == top
    &&& path.len() > top.len() ==> path[top.len() as int] == '.' || path[top.len() as int] == '['
}

/// No path is under both.
pub open spec fn are_apart(a: Seq<char>, b: Seq<char>) -> bool {
    forall|path: Seq<char>| !(#[trigger] is_under(path, a) && is_under(path, b))
}

proof fn lemma_steps(path: Seq<char>, key: Seq<char>, index: nat)
    ensures
        member_path(path, key) == path + member_step(key),
        item_path(path, index) == path + item_step(index),
        member_step(key).len() > 0,
        item_step(index).len() > 0,
        member_step(key)[0] == (if plain_key(key) {
            '.'
        } else {
            '['
        }),
        item_step(index)[0] == '[',
{
    reveal_strlit(".");
    reveal_strlit("[");
    reveal_strlit("]");
    assert(member_path(path, key) == path + member_step(key));
    assert(item_path(path, index) == path + item_step(index));
}

proof fn lemma_under_step(path: Seq<char>, top: Seq<char>, step: Seq<char>)
    requires
        step.len() > 0,
        step[0] == '.' || step[0] == '[',
        is_under(path, top + step),
    ensures
        is_under(path, top),
        path.len() > top.len(),
        path != top,
{
    let longer = top + step;
    assert(path.take(longer.len() as int) == longer);
    assert(path.take(top.len() as int) == longer.take(top.len() as int));
    assert(longer.take(top.len() as int) == top);
    assert(path[top.len() as int] == path.take(longer.len() as int)[top.len() as int]);
}

/// Where both steps lead to a path, one is the beginning of the other, and what
/// comes after the shorter one is the beginning of a step.
proof fn lemma_both_steps(path: Seq<char>, top: Seq<char>, a: Seq<char>, b: Seq<char>)
    requires
        is_under(path, top + a),
        is_under(path, top + b),
        a.len() <= b.len(),
    ensures
        b.take(a.len() as int) == a,
        a.len() < b.len() ==> b[a.len() as int] == '.' || b[a.len() as int] == '[',
{
    let n = top.len() as int;
    let with_a = top + a;
    let with_b = top + b;
    assert(path.take(with_a.len() as int) == with_a);
    assert(path.take(with_b.len() as int) == with_b);
    assert forall|i: int| 0 <= i < a.len() implies b.take(a.len() as int)[i] == a[i] by {
        assert(path.take(with_a.len() as int)[n + i] == with_a[n + i]);
        assert(path.take(with_b.len() as int)[n + i] == with_b[n + i]);
    }
    if a.len() < b.len() {
        assert(path.take(with_b.len() as int)[n + a.len()] == with_b[n + a.len()]);
    }
}

proof fn lemma_escaped_front(text: Seq<char>)
    requires
        text.len() > 0,
    ensures
        json_escaped_all(text) == json_escaped(text[0]) + json_escaped_all(text.drop_first()),
    decreases text.len(),
{
    if text.len() == 1 {
        assert(text.drop_last() == Seq::<char>::empty());
        assert(text.drop_first() == Seq::<char>::empty());
        assert(json_escaped_all(text) == json_escaped(text[0]) + json_escaped_all(
            text.drop_first(),
        ));
    } else {
        lemma_escaped_front(text.drop_last());
        assert(text.drop_last().drop_first() == text.drop_first().drop_last());
        assert(json_escaped_all(text) == json_escaped(text[0]) + json_escaped_all(
            text.drop_first(),
        ));
    }
}

/// No escape is the beginning of another.
proof fn lemma_escapes_differ(a: char, b: char, all: Seq<char>)
    requires
        json_escaped(a).len() <= all.len(),
        json_escaped(b).len() <= all.len(),
        all.take(json_escaped(a).len() as int) == json_escaped(a),
        all.take(json_escaped(b).len() as int) == json_escaped(b),
    ensures
        a == b,
{
    let x = json_escaped(a);
    let y = json_escaped(b);
    assert(all[0] == all.take(x.len() as int)[0]);
    assert(all[0] == all.take(y.len() as int)[0]);
    if x.len() > 1 && y.len() > 1 {
        assert(all[1] == all.take(x.len() as int)[1]);
        assert(all[1] == all.take(y.len() as int)[1]);
        if x.len() == 6 && y.len() == 6 {
            assert(all[4] == all.take(x.len() as int)[4]);
            assert(all[4] == all.take(y.len() as int)[4]);
            assert(all[5] == all.take(x.len() as int)[5]);
            assert(all[5] == all.take(y.len() as int)[5]);
            assert(hex_digit(a as int / 16) == hex_digit(b as int / 16));
            assert(hex_digit(a as int % 16) == hex_digit(b as int % 16));
        }
    }
}

/// A quoted text ends where it ends: no two begin alike up to the closing quote.
proof fn lemma_quoted_differ(a: Seq<char>, b: Seq<char>, all: Seq<char>)
    requires
        json_escaped_all(a).len() < all.len(),
        json_escaped_all(b).len() < all.len(),
        all.take(json_escaped_all(a).len() as int) == json_escaped_all(a),
        all.take(json_escaped_all(b).len() as int) == json_escaped_all(b),
        all[json_escaped_all(a).len() as int] == '"',
        all[json_escaped_all(b).len() as int] == '"',
    ensures
        a == b,
    decreases a.len(),
{
    if a.len() > 0 {
        lemma_escaped_front(a);
        assert(json_escaped_all(a)[0] == json_escaped(a[0])[0]);
        assert(all[0] == all.take(json_escaped_all(a).len() as int)[0]);
    }
    if b.len() > 0 {
        lemma_escaped_front(b);
        assert(json_escaped_all(b)[0] == json_escaped(b[0])[0]);
        assert(all[0] == all.take(json_escaped_all(b).len() as int)[0]);
    }
    if a.len() > 0 && b.len() > 0 {
        let x = json_escaped(a[0]);
        let y = json_escaped(b[0]);
        let rest_a = json_escaped_all(a.drop_first());
        let rest_b = json_escaped_all(b.drop_first());
        assert(all.take(x.len() as int) == all.take(json_escaped_all(a).len() as int).take(
            x.len() as int,
        ));
        assert((x + rest_a).take(x.len() as int) == x);
        assert(all.take(y.len() as int) == all.take(json_escaped_all(b).len() as int).take(
            y.len() as int,
        ));
        assert((y + rest_b).take(y.len() as int) == y);
        lemma_escapes_differ(a[0], b[0], all);
        let rest = all.skip(x.len() as int);
        assert(rest.take(rest_a.len() as int) == all.take(json_escaped_all(a).len() as int).skip(
            x.len() as int,
        ));
        assert((x + rest_a).skip(x.len() as int) == rest_a);
        assert(rest.take(rest_b.len() as int) == all.take(json_escaped_all(b).len() as int).skip(
            y.len() as int,
        ));
        assert((y + rest_b).skip(y.len() as int) == rest_b);
        lemma_quoted_differ(a.drop_first(), b.drop_first(), rest);
        assert(a == seq![a[0]] + a.drop_first());
        assert(b == seq![b[0]] + b.drop_first());
    } else {
        assert(a == b);
    }
}

/// The paths under two members of an object are apart.
proof fn lemma_members_apart(top: Seq<char>, a: Seq<char>, b: Seq<char>)
    requires
        a != b,
    ensures
        are_apart(top + member_step(a), top + member_step(b)),
{
    reveal_strlit(".");
    reveal_strlit("[");
    reveal_strlit("]");
    lemma_steps(top, a, 0);
    lemma_steps(top, b, 0);
    let x = member_step(a);
    let y = member_step(b);
    assert forall|path: Seq<char>| !(#[trigger] is_under(path, top + x) && is_under(
        path,
        top + y,
    )) by {
        if is_under(path, top + x) && is_under(path, top + y) {
            if x.len() <= y.len() {
                lemma_both_steps(path, top, x, y);
                assert(y[0] == y.take(x.len() as int)[0]);
                lemma_member_step_is_whole(a, b);
            } else {
                lemma_both_steps(path, top, y, x);
                assert(x[0] == x.take(y.len() as int)[0]);
                lemma_member_step_is_whole(b, a);
            }
        }
    }
}

/// Only a member's own step begins with its step and goes on like a step.
proof fn lemma_member_step_is_whole(a: Seq<char>, b: Seq<char>)
    requires
        member_step(a).len() <= member_step(b).len(),
        member_step(b).take(member_step(a).len() as int) == member_step(a),
        member_step(a).len() < member_step(b).len() ==> member_step(b)[member_step(a).len() as int]
            == '.' || member_step(b)[member_step(a).len() as int] == '[',
    ensures
        a == b,
{
    reveal_strlit(".");
    reveal_strlit("[");
    reveal_strlit("]");
    let x = member_step(a);
    let y = member_step(b);
    assert(y[0] == y.take(x.len() as int)[0]);
    if plain_key(a) {
        assert(plain_key(b));
        if x.len() < y.len() {
            assert(y[x.len() as int] == b[x.len() - 1]);
            assert(word_char(b[x.len() - 1]));
        }
        assert(x == y);
        assert(a == x.skip(1));
        assert(b == y.skip(1));
    } else {
        assert(!plain_key(b));
        let inside_a = json_escaped_all(a);
        let inside_b = json_escaped_all(b);
        // Both begin with `["`, and what follows ends with `"]`.
        let all = y.skip(2);
        assert(y == seq!['[', '"'] + inside_b + seq!['"', ']']);
        assert(x == seq!['[', '"'] + inside_a + seq!['"', ']']);
        assert(all == inside_b + seq!['"', ']']);
        assert(all.take(inside_b.len() as int) == inside_b);
        assert forall|i: int| 0 <= i < inside_a.len() + 2 implies all[i] == x[i + 2] by {
            assert(y.take(x.len() as int)[i + 2] == x[i + 2]);
        }
        assert(all.take(inside_a.len() as int) == inside_a);
        lemma_quoted_differ(a, b, all);
    }
}

/// The paths under two items of an array are apart.
proof fn lemma_items_apart(top: Seq<char>, a: nat, b: nat)
    requires
        a != b,
    ensures
        are_apart(top + item_step(a), top + item_step(b)),
{
    reveal_strlit("[");
    reveal_strlit("]");
    let x = item_step(a);
    let y = item_step(b);
    assert forall|path: Seq<char>| !(#[trigger] is_under(path, top + x) && is_under(
        path,
        top + y,
    )) by {
        if is_under(path, top + x) && is_under(path, top + y) {
            if x.len() <= y.len() {
                lemma_both_steps(path, top, x, y);
                lemma_item_step_is_whole(a, b);
            } else {
                lemma_both_steps(path, top, y, x);
                lemma_item_step_is_whole(b, a);
            }
        }
    }
}

proof fn lemma_item_step_is_whole(a: nat, b: nat)
    requires
        item_step(a).len() <= item_step(b).len(),
        item_step(b).take(item_step(a).len() as int) == item_step(a),
    ensures
        a == b,
{
    reveal_strlit("[");
    reveal_strlit("]");
    let x = item_step(a);
    let y = item_step(b);
    let max = if a >= b {
        a
    } else {
        b
    };
    a_written_number_reads_back(a, max);
    a_written_number_reads_back(b, max);
    lemma_decimal_len(a);
    lemma_decimal_len(b);
    if x.len() < y.len() {
        let at = x.len() - 1;
        assert(x[at] == ']');
        assert(y[at] == y.take(x.len() as int)[at]);
        assert(y[at] == decimal(b)[at - 1]);
        lemma_decimal_digits(b, at - 1);
    } else {
        assert(x == y);
        assert(decimal(a) == x.subrange(1, x.len() - 1));
        assert(decimal(b) == y.subrange(1, y.len() - 1));
    }
}

proof fn lemma_decimal_digits(n: nat, at: int)
    requires
        0 <= at < decimal(n).len(),
    ensures
        is_digit(decimal(n)[at]),
    decreases n,
{
    if n >= 10 {
        if at < decimal(n / 10).len() {
            lemma_decimal_digits(n / 10, at);
        }
    }
}

/// Every row of a list is at a path or somewhere under it.
pub open spec fn all_under(rows: Seq<RowView>, top: Seq<char>) -> bool {
    forall|i: int| 0 <= i < rows.len() ==> is_under((#[trigger] rows[i]).path, top)
}

/// No two rows of a list are at one path.
pub open spec fn own_paths(rows: Seq<RowView>) -> bool {
    forall|i: int, j: int|
        0 <= i < j < rows.len() ==> (#[trigger] rows[i]).path != (#[trigger] rows[j]).path
}

proof fn lemma_own_paths_concat(a: Seq<RowView>, b: Seq<RowView>)
    requires
        own_paths(a),
        own_paths(b),
        forall|i: int, j: int|
            0 <= i < a.len() && 0 <= j < b.len() ==> (#[trigger] a[i]).path != (
            #[trigger] b[j]).path,
    ensures
        own_paths(a + b),
{
    let all = a + b;
    assert forall|i: int, j: int| 0 <= i < j < all.len() implies (#[trigger] all[i]).path != (
    #[trigger] all[j]).path by {
        if j < a.len() {
            assert(all[i] == a[i] && all[j] == a[j]);
        } else if i >= a.len() {
            assert(all[i] == b[i - a.len()] && all[j] == b[j - a.len()]);
        } else {
            assert(all[i] == a[i] && all[j] == b[j - a.len()]);
        }
    }
}

proof fn lemma_walked_own_paths(
    value: JsonView,
    path: Seq<char>,
    label: Option<Seq<char>>,
    depth: int,
    closed: Set<Seq<char>>,
)
    requires
        well_keyed(value),
    ensures
        all_under(walked(value, path, label, depth, closed), path),
        own_paths(walked(value, path, label, depth, closed)),
    decreases value, 0nat,
{
    let rows = walked(value, path, label, depth, closed);
    assert(path.take(path.len() as int) == path);
    let head = seq![rows[0]];
    match value {
        JsonView::Object(members) => {
            if is_open(path, depth, closed) {
                let rest = walked_members(members, path, depth, closed);
                lemma_members_own_paths(members, path, depth, closed);
                assert(rows == head + rest);
                assert forall|i: int| 0 <= i < rest.len() implies (#[trigger] rest[i]).path != path
                    && is_under(rest[i].path, path) by {
                    let k = choose|k: int|
                        0 <= k < members.len() && is_under(
                            rest[i].path,
                            path + member_step((#[trigger] members[k]).0),
                        );
                    lemma_steps(path, members[k].0, 0);
                    lemma_under_step(rest[i].path, path, member_step(members[k].0));
                }
                lemma_own_paths_concat(head, rest);
            }
        },
        JsonView::Array(items) => {
            if is_open(path, depth, closed) {
                let rest = walked_items(items, path, depth, closed);
                lemma_items_own_paths(items, path, depth, closed);
                assert(rows == head + rest);
                assert forall|i: int| 0 <= i < rest.len() implies (#[trigger] rest[i]).path != path
                    && is_under(rest[i].path, path) by {
                    let k = choose|k: nat|
                        k < items.len() && is_under(
                            rest[i].path,
                            path + #[trigger] item_step(k),
                        );
                    lemma_steps(path, path, k);
                    lemma_under_step(rest[i].path, path, item_step(k));
                }
                lemma_own_paths_concat(head, rest);
            }
        },
        _ => {},
    }
}

proof fn lemma_members_own_paths(
    members: Seq<(Seq<char>, JsonView)>,
    path: Seq<char>,
    depth: int,
    closed: Set<Seq<char>>,
)
    requires
        forall|i: int| 0 <= i < members.len() ==> well_keyed((#[trigger] members[i]).1),
        forall|i: int, j: int|
            0 <= i < j < members.len() ==> (#[trigger] members[i]).0 != (#[trigger] members[j]).0,
    ensures
        own_paths(walked_members(members, path, depth, closed)),
        forall|i: int|
            0 <= i < walked_members(members, path, depth, closed).len() ==> exists|k: int|
                0 <= k < members.len() && is_under(
                    (#[trigger] walked_members(members, path, depth, closed)[i]).path,
                    path + member_step((#[trigger] members[k]).0),
                ),
    decreases members, members.len(),
{
    let rows = walked_members(members, path, depth, closed);
    if members.len() > 0 {
        let n = members.len() - 1;
        let front = members.drop_last();
        let key = members[n].0;
        let before = walked_members(front, path, depth, closed);
        let last = walked(members[n].1, member_path(path, key), Some(key), depth + 1, closed);
        assert forall|i: int| 0 <= i < front.len() implies well_keyed((#[trigger] front[i]).1) by {
            assert(front[i] == members[i]);
        }
        assert forall|i: int, j: int| 0 <= i < j < front.len() implies (#[trigger] front[i]).0 != (
        #[trigger] front[j]).0 by {
            assert(front[i] == members[i] && front[j] == members[j]);
        }
        lemma_members_own_paths(front, path, depth, closed);
        lemma_walked_own_paths(
            members[n].1,
            member_path(path, key),
            Some(key),
            depth + 1,
            closed,
        );
        lemma_steps(path, key, 0);
        assert(rows == before + last);
        assert forall|i: int, j: int|
            0 <= i < before.len() && 0 <= j < last.len() implies (#[trigger] before[i]).path != (
        #[trigger] last[j]).path by {
            let k = choose|k: int|
                0 <= k < front.len() && is_under(
                    before[i].path,
                    path + member_step((#[trigger] front[k]).0),
                );
            assert(front[k] == members[k]);
            lemma_members_apart(path, members[k].0, key);
            assert(is_under(last[j].path, path + member_step(key)));
        }
        lemma_own_paths_concat(before, last);
        assert forall|i: int| 0 <= i < rows.len() implies exists|k: int|
            0 <= k < members.len() && is_under(
                (#[trigger] rows[i]).path,
                path + member_step((#[trigger] members[k]).0),
            ) by {
            if i < before.len() {
                assert(rows[i] == before[i]);
                let k = choose|k: int|
                    0 <= k < front.len() && is_under(
                        before[i].path,
                        path + member_step((#[trigger] front[k]).0),
                    );
                assert(front[k] == members[k]);
                assert(is_under(rows[i].path, path + member_step(members[k].0)));
            } else {
                assert(rows[i] == last[i - before.len()]);
                assert(is_under(rows[i].path, path + member_step(members[n].0)));
            }
        }
    }
}

proof fn lemma_items_own_paths(
    items: Seq<JsonView>,
    path: Seq<char>,
    depth: int,
    closed: Set<Seq<char>>,
)
    requires
        forall|i: int| 0 <= i < items.len() ==> well_keyed(#[trigger] items[i]),
    ensures
        own_paths(walked_items(items, path, depth, closed)),
        forall|i: int|
            0 <= i < walked_items(items, path, depth, closed).len() ==> exists|k: nat|
                k < items.len() && is_under(
                    (#[trigger] walked_items(items, path, depth, closed)[i]).path,
                    path + #[trigger] item_step(k),
                ),
    decreases items, items.len(),
{
    let rows = walked_items(items, path, depth, closed);
    if items.len() > 0 {
        let n = (items.len() - 1) as nat;
        let front = items.drop_last();
        let before = walked_items(front, path, depth, closed);
        let last = walked(
            items[n as int],
            item_path(path, n),
            Some(decimal(n)),
            depth + 1,
            closed,
        );
        assert forall|i: int| 0 <= i < front.len() implies well_keyed(#[trigger] front[i]) by {
            assert(front[i] == items[i]);
        }
        lemma_items_own_paths(front, path, depth, closed);
        lemma_walked_own_paths(
            items[n as int],
            item_path(path, n),
            Some(decimal(n)),
            depth + 1,
            closed,
        );
        lemma_steps(path, path, n);
        assert(rows == before + last);
        assert forall|i: int, j: int|
            0 <= i < before.len() && 0 <= j < last.len() implies (#[trigger] before[i]).path != (
        #[trigger] last[j]).path by {
            let k = choose|k: nat|
                k < front.len() && is_under(before[i].path, path + #[trigger] item_step(k));
            lemma_items_apart(path, k, n);
            assert(is_under(last[j].path, path + item_step(n)));
        }
        lemma_own_paths_concat(before, last);
        assert forall|i: int| 0 <= i < rows.len() implies exists|k: nat|
            k < items.len() && is_under(
                (#[trigger] rows[i]).path,
                path + #[trigger] item_step(k),
            ) by {
            if i < before.len() {
                assert(rows[i] == before[i]);
                let k = choose|k: nat|
                    k < front.len() && is_under(before[i].path, path + #[trigger] item_step(k));
                assert(is_under(rows[i].path, path + item_step(k)));
            } else {
                assert(rows[i] == last[i - before.len()]);
                assert(is_under(rows[i].path, path + item_step(n)));
            }
        }
    }
}

/// Every row has a path of its own, whatever the keys are: folding one branch
/// folds no other, and a copied path leads back to one value.
pub proof fn every_row_has_its_own_path(value: JsonView, closed: Set<Seq<char>>)
    requires
        well_keyed(value),
    ensures
        own_paths(tree_rows(value, closed)),
{
    lemma_walked_own_paths(value, "$"@, None, 0, closed);
    let all = walked(value, "$"@, None, 0, closed);
    assert forall|i: int, j: int| 0 <= i < j < tree_rows(value, closed).len() implies (
    #[trigger] tree_rows(value, closed)[i]).path != (#[trigger] tree_rows(
        value,
        closed,
    )[j]).path by {
        assert(tree_rows(value, closed)[i] == all[i]);
        assert(tree_rows(value, closed)[j] == all[j]);
    }
}

/// What a fold of one field is kept under: paths of different fields are kept
/// apart.
pub open spec fn fold_key(field: Seq<char>, path: Seq<char>) -> Seq<char> {
    field + seq!['\u{1f}'] + path
}

/// The paths of one field that are folded.
pub open spec fn field_folds(closed: Seq<String>, field: Seq<char>) -> Set<Seq<char>> {
    Set::new(|path: Seq<char>| texts(closed).contains(fold_key(field, path)))
}

/// Folds are kept per field: `$.a` in one column is not `$.a` in another.
pub proof fn folds_of_fields_stay_apart(
    field: Seq<char>,
    path: Seq<char>,
    other_field: Seq<char>,
    other_path: Seq<char>,
)
    requires
        !field.contains('\u{1f}'),
        !other_field.contains('\u{1f}'),
        fold_key(field, path) == fold_key(other_field, other_path),
    ensures
        field == other_field,
        path == other_path,
{
    let key = fold_key(field, path);
    let other = fold_key(other_field, other_path);
    assert(key[field.len() as int] == '\u{1f}');
    assert(other[other_field.len() as int] == '\u{1f}');
    if field.len() < other_field.len() {
        assert(other_field[field.len() as int] == other[field.len() as int]);
    }
    if other_field.len() < field.len() {
        assert(field[other_field.len() as int] == key[other_field.len() as int]);
    }
    assert(field == key.take(field.len() as int));
    assert(other_field == other.take(other_field.len() as int));
    assert(path == key.skip(field.len() as int + 1));
    assert(other_path == other.skip(other_field.len() as int + 1));
}

fn folds_under(closed: &Vec<String>, prefix: &str) -> (paths: Vec<String>)
    ensures
        forall|path: Seq<char>| #[trigger]
            texts(paths@).contains(path) <==> texts(closed@).contains(prefix@ + path),
{
    let mut paths: Vec<String> = Vec::new();
    let wide: usize = chars_of(prefix).len();
    let mut i: usize = 0;
    while i < closed.len()
        invariant
            i <= closed@.len(),
            wide == prefix@.len(),
            forall|k: int|
                0 <= k < paths@.len() ==> texts(closed@).contains(
                    prefix@ + (#[trigger] paths@[k])@,
                ),
            forall|k: int|
                0 <= k < i && begins((#[trigger] closed@[k])@, prefix@) ==> texts(paths@).contains(
                    closed@[k]@.subrange(wide as int, closed@[k]@.len() as int),
                ),
        decreases closed@.len() - i,
    {
        let key = closed[i].as_str();
        if starts_with(key, prefix) {
            let chars = chars_of(key);
            let path = string_of_range(&chars, wide, chars.len());
            let ghost before = paths@;
            paths.push(path);
            proof {
                assert(prefix@ + path@ == key@);
                assert(texts(closed@)[i as int] == key@);
                assert(texts(paths@)[before.len() as int] == path@);
                assert forall|k: int|
                    0 <= k < i && begins((#[trigger] closed@[k])@, prefix@) implies texts(
                    paths@,
                ).contains(closed@[k]@.subrange(wide as int, closed@[k]@.len() as int)) by {
                    let rest = closed@[k]@.subrange(wide as int, closed@[k]@.len() as int);
                    let at = choose|at: int|
                        0 <= at < texts(before).len() && texts(before)[at] == rest;
                    assert(texts(paths@)[at] == rest);
                }
            }
        }
        i += 1;
    }
    proof {
        assert forall|path: Seq<char>| #[trigger]
            texts(paths@).contains(path) <==> texts(closed@).contains(prefix@ + path) by {
            if texts(paths@).contains(path) {
                let k = choose|k: int| 0 <= k < texts(paths@).len() && texts(paths@)[k] == path;
                assert(paths@[k]@ == path);
            }
            if texts(closed@).contains(prefix@ + path) {
                let k = choose|k: int|
                    0 <= k < texts(closed@).len() && texts(closed@)[k] == prefix@ + path;
                assert(closed@[k]@ == prefix@ + path);
                assert(closed@[k]@.subrange(0, wide as int) == prefix@);
                assert(begins(closed@[k]@, prefix@));
                assert(closed@[k]@.subrange(wide as int, closed@[k]@.len() as int) == path);
            }
        }
    }
    paths
}

/// A line of the tree as it is drawn.
#[derive(Debug)]
pub struct JsonLine {
    pub depth: usize,
    /// The key or index with its colon.
    pub label: Option<String>,
    pub part: JsonPart,
}

#[derive(Debug)]
pub enum JsonPart {
    /// A branch: what a click folds or unfolds, and what it holds.
    Branch { key: String, open: bool, glyph: String, summary: String },
    /// A scalar: what it shows, and what a click copies from where.
    Leaf { shown: String, style: LeafStyle, copies: String, path: String },
}

#[derive(Debug)]
pub struct JsonTree {
    pub lines: Vec<JsonLine>,
    /// What stands under the lines where there is more than is drawn.
    pub more: Option<String>,
}

/// What stands under so many lines.
pub open spec fn more_of(lines: nat) -> Option<Seq<char>> {
    if lines >= MAX_ROWS {
        Some("… more than the tree shows; read it as text"@)
    } else {
        None
    }
}

/// The mark in front of a branch, which says whether it is open.
pub open spec fn fold_glyph(open: bool) -> Seq<char> {
    if open {
        "▾"@
    } else {
        "▸"@
    }
}

pub open spec fn branch_summary(array: bool, len: nat) -> Seq<char> {
    if array {
        if len == 1 {
            "[1 item]"@
        } else {
            "["@ + decimal(len) + " items]"@
        }
    } else if len == 1 {
        "{1 key}"@
    } else {
        "{"@ + decimal(len) + " keys}"@
    }
}

fn branch_summary_text(array: bool, len: usize) -> (summary: String)
    ensures
        summary@ == branch_summary(array, len as nat),
{
    if len == 1 {
        return if array {
            "[1 item]".to_string()
        } else {
            "{1 key}".to_string()
        };
    }
    let mut summary: String = if array {
        "[".to_string()
    } else {
        "{".to_string()
    };
    push_decimal(&mut summary, len as u64);
    summary.append(
        if array {
            " items]"
        } else {
            " keys}"
        },
    );
    summary
}

/// A scalar as it is shown: a text between quotes, anything else as it is.
pub open spec fn leaf_shown(text: Seq<char>, style: LeafStyle) -> Seq<char> {
    if style == LeafStyle::String {
        "\""@ + text + "\""@
    } else {
        text
    }
}

pub open spec fn line_of(line: JsonLine, row: RowView, field: Seq<char>) -> bool {
    &&& line.depth == row.depth
    &&& opt(line.label) == (match row.label {
        Some(label) => Some(label + ":"@),
        None => None,
    })
    &&& match (line.part, row.kind) {
        (
            JsonPart::Branch { key, open, glyph, summary },
            KindView::Branch { array, len, open: row_open },
        ) => {
            &&& key@ == fold_key(field, row.path)
            &&& open == row_open
            &&& glyph@ == fold_glyph(open)
            &&& summary@ == branch_summary(array, len as nat)
        },
        (
            JsonPart::Leaf { shown, style, copies, path },
            KindView::Leaf { text, style: row_style },
        ) => {
            &&& shown@ == leaf_shown(text, row_style)
            &&& style == row_style
            &&& copies@ == text
            &&& path@ == row.path
        },
        _ => false,
    }
}

/// The drawn lines of a field's rows, one for one.
pub open spec fn lines_of(lines: Seq<JsonLine>, rows: Seq<RowView>, field: Seq<char>) -> bool {
    &&& lines.len() == rows.len()
    &&& forall|i: int|
        0 <= i < lines.len() ==> line_of(#[trigger] lines[i], rows[i], field)
}

fn line(row: &TreeRow, field: &str) -> (line: JsonLine)
    ensures
        line_of(line, row@, field@),
{
    let label = match &row.label {
        Some(label) => {
            let mut text: String = label.as_str().to_string();
            text.append(":");
            Some(text)
        },
        None => None,
    };
    let part = match &row.kind {
        TreeKind::Branch { array, len, open } => {
            let mut key: String = field.to_string();
            key.push('\u{1f}');
            key.append(row.path.as_str());
            assert(key@ == fold_key(field@, row.path@));
            JsonPart::Branch {
                key,
                open: *open,
                glyph: if *open {
                    "▾".to_string()
                } else {
                    "▸".to_string()
                },
                summary: branch_summary_text(*array, *len),
            }
        },
        TreeKind::Leaf { text, style } => {
            let mut shown: String = String::new();
            if *style == LeafStyle::String {
                shown.append("\"");
                shown.append(text.as_str());
                shown.append("\"");
            } else {
                shown.append(text.as_str());
            }
            assert(shown@ == leaf_shown(text@, *style));
            JsonPart::Leaf {
                shown,
                style: *style,
                copies: text.as_str().to_string(),
                path: row.path.as_str().to_string(),
            }
        },
    };
    JsonLine { depth: row.depth, label, part }
}

/// A text is shown between quotes and copied without them; any other scalar is
/// shown as it is copied.
pub proof fn a_shown_scalar_is_the_copied_one(text: Seq<char>, style: LeafStyle)
    ensures
        style == LeafStyle::String ==> leaf_shown(text, style) == seq!['"'] + text + seq!['"'],
        style != LeafStyle::String ==> leaf_shown(text, style) == text,
{
    reveal_strlit("\"");
    assert("\""@ == seq!['"']);
}

/// A branch's summary gives its size, between the brackets of its kind.
pub proof fn a_summary_gives_the_size(array: bool, len: nat)
    ensures
        ({
            let summary = branch_summary(array, len);
            let size = decimal(len);
            &&& summary.len() > size.len() + 2
            &&& summary[0] == (if array {
                '['
            } else {
                '{'
            })
            &&& summary.last() == (if array {
                ']'
            } else {
                '}'
            })
            &&& summary.subrange(1, 1 + size.len() as int) == size
            &&& summary[1 + size.len() as int] == ' '
            &&& summary[summary.len() - 2] == 's' <==> len != 1
        }),
{
    reveal_strlit("[1 item]");
    reveal_strlit("{1 key}");
    reveal_strlit("[");
    reveal_strlit("{");
    reveal_strlit(" items]");
    reveal_strlit(" keys}");
    reveal_with_fuel(decimal, 2);
    assert(decimal(1) == seq!['1']);
    lemma_decimal_len(len);
    let summary = branch_summary(array, len);
    assert(summary.subrange(1, 1 + decimal(len).len() as int) == decimal(len));
}

/// A value that has parts is drawn as a tree; a scalar is drawn as text.
pub open spec fn is_branch(value: JsonView) -> bool {
    value is Object || value is Array
}

/// The tree for a field's value. `None` when the value is not an object or
/// array, which the caller then draws as text.
pub fn render_value(field: &str, value: &Json, closed: &Vec<String>) -> (tree: Option<JsonTree>)
    ensures
        match tree {
            Some(tree) => {
                let shown = tree_rows(value@, field_folds(closed@, field@));
                &&& is_branch(value@)
                &&& lines_of(tree.lines@, shown, field@)
                &&& opt(tree.more) == more_of(shown.len())
            },
            None => !is_branch(value@),
        },
{
    match value {
        Json::Object(_) => {},
        Json::Array(_) => {},
        _ => return None,
    }
    let mut prefix: String = field.to_string();
    prefix.push('\u{1f}');
    let here = folds_under(closed, prefix.as_str());
    proof {
        assert forall|path: Seq<char>| #[trigger]
            folds(here@).contains(path) == field_folds(closed@, field@).contains(path) by {
            assert(prefix@ + path == fold_key(field@, path));
            assert(texts(here@).contains(path) <==> texts(closed@).contains(prefix@ + path));
        }
        assert(folds(here@) == field_folds(closed@, field@));
    }
    let shown = rows(value, &here);
    let mut lines: Vec<JsonLine> = Vec::new();
    let mut i: usize = 0;
    while i < shown.len()
        invariant
            i <= shown@.len(),
            lines@.len() == i,
            forall|k: int| 0 <= k < i ==> line_of(#[trigger] lines@[k], shown@[k]@, field@),
        decreases shown@.len() - i,
    {
        lines.push(line(&shown[i], field));
        i += 1;
    }
    proof {
        assert forall|k: int| 0 <= k < lines@.len() implies line_of(
            #[trigger] lines@[k],
            row_views(shown@)[k],
            field@,
        ) by {
            assert(row_views(shown@)[k] == shown@[k]@);
        }
    }
    let more = if shown.len() >= MAX_ROWS {
        Some("… more than the tree shows; read it as text".to_string())
    } else {
        None
    };
    Some(JsonTree { lines, more })
}

/// The tree for the JSON text of a field. `None` when the text is not an object
/// or array, which the caller then draws as text.
pub fn render(field: &str, text: &str, closed: &Vec<String>) -> (tree: Option<JsonTree>)
    ensures
        match tree {
            Some(tree) => {
                &&& json_parse(text@) is Some
                &&& is_branch(json_parse(text@).unwrap())
                &&& lines_of(
                    tree.lines@,
                    tree_rows(json_parse(text@).unwrap(), field_folds(closed@, field@)),
                    field@,
                )
                &&& opt(tree.more) == more_of(
                    tree_rows(json_parse(text@).unwrap(), field_folds(closed@, field@)).len(),
                )
                &&& own_paths(
                    tree_rows(json_parse(text@).unwrap(), field_folds(closed@, field@)),
                )
            },
            None => json_parse(text@) is None || !is_branch(json_parse(text@).unwrap()),
        },
{
    match parse_json(text) {
        Some(value) => {
            proof {
                every_row_has_its_own_path(value@, field_folds(closed@, field@));
            }
            render_value(field, &value, closed)
        },
        None => None,
    }
}

/// Show a JSON field as a tree, or back as text.
pub fn toggle_json_tree(fields: &mut Vec<String>, field: &str)
    ensures
        texts(final(fields)@) == toggled(texts(old(fields)@), field@),
{
    toggle(fields, field)
}

/// Fold a branch, or unfold it.
pub fn toggle_json_node(closed: &mut Vec<String>, key: &str)
    ensures
        texts(final(closed)@) == toggled(texts(old(closed)@), key@),
{
    toggle(closed, key)
}

/// What the status line says of a copied scalar: where it stands.
pub fn copied_leaf(path: &str) -> (status: Status)
    ensures
        status.info_is("Copied "@ + path@),
{
    let mut line: String = "Copied ".to_string();
    line.append(path);
    Status::Info(line)
}

/// A branch is folded by its path, and within a field by the field and the path.
pub proof fn a_branch_is_folded_by_its_path(
    closed: Seq<String>,
    field: Seq<char>,
    path: Seq<char>,
)
    ensures
        folds(closed).contains(path) <==> texts(closed).contains(path),
        field_folds(closed, field).contains(path) <==> texts(closed).contains(
            field + seq!['\u{1f}'] + path,
        ),
{
}

/// Only objects and lists have anything under them.
pub proof fn only_objects_and_lists_branch(value: JsonView)
    ensures
        is_branch(value) <==> value is Object || value is Array,
{
}

/// A tree that stops at its limit says so, and a shorter one does not.
pub proof fn a_cut_tree_says_so(lines: nat)
    ensures
        more_of(lines) is Some <==> lines >= 400,
{
}

/// A value says all that it holds: every item of a list and every member of an
/// object, in order, under its own name.
pub proof fn a_value_says_all_that_it_holds(value: Json, i: int)
    ensures
        value is Null ==> value@ is Null,
        value matches Json::Bool(flag) ==> value@ == JsonView::Bool(flag),
        value matches Json::Number(text) ==> value@ == JsonView::Number(text@),
        value matches Json::Text(text) ==> value@ == JsonView::Text(text@),
        value matches Json::Array(items) ==> value@ is Array && value@->Array_0.len()
            == items@.len() && (0 <= i < items@.len() ==> value@->Array_0[i] == items@[i]@),
        value matches Json::Object(members) ==> value@ is Object && value@->Object_0.len()
            == members@.len() && (0 <= i < members@.len() ==> value@->Object_0[i] == (
            members@[i].0@,
            members@[i].1@,
        )),
{
}

/// A line of the tree says what its row says: as deep, with the name and a colon in
/// front, and the sign of whether it is open or folded.
pub proof fn a_line_is_read_off_its_row(line: JsonLine, row: RowView, field: Seq<char>)
    requires
        line_of(line, row, field),
    ensures
        line.depth == row.depth,
        line.label is Some <==> row.label is Some,
        row.label is Some ==> line.label->0@ == row.label->0 + seq![':'],
        line.part is Branch <==> row.kind is Branch,
        line.part matches JsonPart::Branch { key, open, glyph, summary } ==> open
            == row.kind->open && key@ == field + seq!['\u{1f}'] + row.path && glyph@ == (if open {
            seq!['▾']
        } else {
            seq!['▸']
        }) && summary@ == branch_summary(row.kind->array, row.kind->len as nat),
        line.part matches JsonPart::Leaf { style, copies, path, .. } ==> style == row.kind->style
            && copies@ == row.kind->text && path@ == row.path,
{
    reveal_strlit(":");
    reveal_strlit("▾");
    reveal_strlit("▸");
    assert(":"@ == seq![':']);
    assert("▾"@ == seq!['▾']);
    assert("▸"@ == seq!['▸']);
}

/// The lines of a tree are its rows, one for one, in order.
pub proof fn every_row_has_its_line(lines: Seq<JsonLine>, rows: Seq<RowView>, field: Seq<char>, i: int)
    requires
        lines_of(lines, rows, field),
        0 <= i < rows.len(),
    ensures
        lines.len() == rows.len(),
        line_of(lines[i], rows[i], field),
{
}

} // verus!
