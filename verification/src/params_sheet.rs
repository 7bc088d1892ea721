//! The values for a statement's `:name` placeholders, asked for before it runs.
//!
//! Each name gets a field, filled with what it was given last time, so
//! re-running a statement with one value changed is Enter, a few keys, and
//! Enter.
use crate::keys::{tabbed, Keystroke};
use crate::main_pane::CompletionPopup;
use crate::text::{lemma_places_step, listed, opt, places_where, same, texts};
use crate::text_input::{line_input, TextInput};
use vstd::prelude::*;
use vstd::string::*;

verus! {

#[derive(Debug)]
pub struct ParamSheet {
    pub names: Vec<String>,
    pub inputs: Vec<TextInput>,
    pub focused: usize,
    /// The statements waiting on the values, as the editor resolved them.
    pub statements: Vec<String>,
    /// Asked for by Explain rather than Run.
    pub explain: bool,
}

/// The values that names were given last, a name once.
#[derive(Debug)]
pub struct ParamValues {
    pub values: Vec<(String, String)>,
}

/// What a name was given last, from `from` on.
pub open spec fn lookup(values: Seq<(String, String)>, name: Seq<char>, from: int) -> Option<
    Seq<char>,
>
    decreases values.len() - from,
{
    if from >= values.len() {
        None
    } else if values[from].0@ == name {
        Some(values[from].1@)
    } else {
        lookup(values, name, from + 1)
    }
}

proof fn lemma_lookup_skips(values: Seq<(String, String)>, name: Seq<char>, from: int, at: int)
    requires
        0 <= from <= at <= values.len(),
        forall|i: int| from <= i < at ==> (#[trigger] values[i]).0@ != name,
    ensures
        lookup(values, name, from) == lookup(values, name, at),
    decreases at - from,
{
    if from < at {
        assert(values[from].0@ != name);
        lemma_lookup_skips(values, name, from + 1, at);
    }
}

proof fn lemma_lookup_change(
    before: Seq<(String, String)>,
    after: Seq<(String, String)>,
    name: Seq<char>,
    at: int,
    from: int,
)
    requires
        before.len() <= after.len() <= before.len() + 1,
        0 <= at < after.len(),
        0 <= from,
        forall|i: int| 0 <= i < before.len() && i != at ==> #[trigger] after[i] == before[i],
        after.len() > before.len() ==> at == before.len(),
        after[at].0@ != name,
        at < before.len() ==> before[at].0@ != name,
    ensures
        lookup(after, name, from) == lookup(before, name, from),
    decreases after.len() - from,
{
    if from < after.len() {
        if from < before.len() {
            if from != at {
                assert(after[from] == before[from]);
            }
            if after[from].0@ != name {
                lemma_lookup_change(before, after, name, at, from + 1);
            }
        } else {
            lemma_lookup_change(before, after, name, at, from + 1);
        }
    }
}

impl ParamValues {
    /// What a name was given last.
    pub open spec fn given(self, name: Seq<char>) -> Option<Seq<char>> {
        lookup(self.values@, name, 0)
    }

    pub fn get(&self, name: &str) -> (value: Option<String>)
        ensures
            opt(value) == self.given(name@),
    {
        let mut i: usize = 0;
        while i < self.values.len()
            invariant
                i <= self.values@.len(),
                lookup(self.values@, name@, 0) == lookup(self.values@, name@, i as int),
            decreases self.values@.len() - i,
        {
            if same(self.values[i].0.as_str(), name) {
                return Some(self.values[i].1.as_str().to_string());
            }
            i += 1;
        }
        None
    }

    /// Remembers what a name was given.
    pub fn insert(&mut self, name: &str, value: &str)
        ensures
            final(self).given(name@) == Some(value@),
            forall|other: Seq<char>|
                other != name@ ==> #[trigger] final(self).given(other) == old(self).given(other),
    {
        let ghost before = self.values@;
        let mut at: usize = 0;
        while at < self.values.len() && !same(self.values[at].0.as_str(), name)
            invariant
                at <= self.values@.len(),
                self.values@ == before,
                forall|i: int| 0 <= i < at ==> (#[trigger] self.values@[i]).0@ != name@,
            decreases self.values@.len() - at,
        {
            at += 1;
        }
        let pair = (name.to_string(), value.to_string());
        if at < self.values.len() {
            self.values.set(at, pair);
        } else {
            self.values.push(pair);
        }
        proof {
            let after = self.values@;
            lemma_lookup_skips(after, name@, 0, at as int);
            assert(lookup(after, name@, at as int) == Some(value@));
            assert forall|other: Seq<char>| other != name@ implies #[trigger] self.given(other)
                == lookup(before, other, 0) by {
                lemma_lookup_change(before, after, other, at as int, 0);
            }
        }
    }
}

/// The names of one statement after those of the statements before it, each only
/// the first time.
pub open spec fn with_names(known: Seq<Seq<char>>, found: Seq<Seq<char>>) -> Seq<Seq<char>>
    decreases found.len(),
{
    if found.len() == 0 {
        known
    } else {
        let before = with_names(known, found.drop_last());
        if before.contains(found.last()) {
            before
        } else {
            before.push(found.last())
        }
    }
}

/// The names of the first `upto` statements, each once, in the order they first
/// occur.
pub open spec fn names_in(found: Seq<Vec<String>>, upto: int) -> Seq<Seq<char>>
    decreases upto,
{
    if upto <= 0 {
        Seq::empty()
    } else {
        with_names(names_in(found, upto - 1), texts(found[upto - 1]@))
    }
}

fn add_names(names: &mut Vec<String>, found: &Vec<String>)
    ensures
        texts(final(names)@) == with_names(texts(old(names)@), texts(found@)),
{
    let ghost known = texts(names@);
    let ghost all = texts(found@);
    let mut i: usize = 0;
    assert(all.take(0) == Seq::<Seq<char>>::empty());
    while i < found.len()
        invariant
            i <= found@.len(),
            all == texts(found@),
            texts(names@) == with_names(known, all.take(i as int)),
        decreases found@.len() - i,
    {
        assert(all.take(i + 1).drop_last() == all.take(i as int));
        assert(all.take(i + 1).last() == found@[i as int]@);
        if !listed(names, found[i].as_str()) {
            let ghost before = names@;
            names.push(found[i].as_str().to_string());
            assert(texts(names@) == texts(before).push(found@[i as int]@));
        }
        i += 1;
    }
    assert(all.take(i as int) == all);
}

proof fn lemma_with_names(known: Seq<Seq<char>>, found: Seq<Seq<char>>, name: Seq<char>)
    requires
        known.no_duplicates(),
    ensures
        with_names(known, found).no_duplicates(),
        with_names(known, found).contains(name) <==> known.contains(name) || found.contains(name),
    decreases found.len(),
{
    if found.len() > 0 {
        let before = with_names(known, found.drop_last());
        let last = found.last();
        lemma_with_names(known, found.drop_last(), name);
        lemma_with_names(known, found.drop_last(), last);
        assert(found == found.drop_last().push(last));
        assert(found.contains(name) <==> found.drop_last().contains(name) || name == last) by {
            if found.contains(name) && name != last {
                let i = choose|i: int| 0 <= i < found.len() && found[i] == name;
                assert(found.drop_last()[i] == name);
            }
            if found.drop_last().contains(name) {
                let i = choose|i: int|
                    0 <= i < found.drop_last().len() && found.drop_last()[i] == name;
                assert(found[i] == name);
            }
            assert(found[found.len() - 1] == last);
        }
        if !before.contains(last) {
            let all = before.push(last);
            assert(all[before.len() as int] == last);
            if before.contains(name) {
                let i = choose|i: int| 0 <= i < before.len() && before[i] == name;
                assert(all[i] == name);
            }
            if all.contains(name) && name != last {
                let i = choose|i: int| 0 <= i < all.len() && all[i] == name;
                assert(before[i] == name);
            }
        }
    }
}

proof fn lemma_names_in(found: Seq<Vec<String>>, upto: int, name: Seq<char>)
    requires
        upto <= found.len(),
    ensures
        names_in(found, upto).no_duplicates(),
        names_in(found, upto).contains(name) <==> exists|i: int|
            0 <= i < upto && #[trigger] texts(found[i]@).contains(name),
    decreases upto,
{
    if upto > 0 {
        lemma_names_in(found, upto - 1, name);
        lemma_with_names(names_in(found, upto - 1), texts(found[upto - 1]@), name);
        if exists|i: int| 0 <= i < upto && #[trigger] texts(found[i]@).contains(name) {
            let i = choose|i: int| 0 <= i < upto && #[trigger] texts(found[i]@).contains(name);
            if i < upto - 1 {
                assert(0 <= i < upto - 1 && texts(found[i]@).contains(name));
            }
        }
    }
}

/// A name is asked for once, however often it occurs, and every name that occurs
/// is asked for.
pub proof fn each_name_is_asked_for_once(found: Seq<Vec<String>>, name: Seq<char>)
    ensures
        names_in(found, found.len() as int).no_duplicates(),
        names_in(found, found.len() as int).contains(name) <==> exists|i: int|
            0 <= i < found.len() && #[trigger] texts(found[i]@).contains(name),
{
    lemma_names_in(found, found.len() as int, name);
}

/// What a name's field starts with.
pub open spec fn starting_value(values: ParamValues, name: Seq<char>) -> Seq<char> {
    match values.given(name) {
        Some(value) => value,
        None => Seq::empty(),
    }
}

/// Run (or explain) `statements`, asking first for any `:name` in them. `found`
/// holds the names of each. The editor's popup goes as the sheet comes up. `None`
/// when there were no names and the caller should go ahead.
pub fn ask_for_params(
    statements: Vec<String>,
    found: &Vec<Vec<String>>,
    values: &ParamValues,
    explain: bool,
    completion: &mut Option<CompletionPopup>,
) -> (sheet: Option<ParamSheet>)
    ensures
        *final(completion) == (if sheet is Some {
            None
        } else {
            *old(completion)
        }),
        ({
            let names = names_in(found@, found@.len() as int);
            match sheet {
                Some(sheet) => {
                    &&& names.len() > 0
                    &&& sheet.wf()
                    &&& texts(sheet.names@) == names
                    &&& forall|i: int|
                        0 <= i < names.len() ==> (#[trigger] sheet.inputs@[i])@ == line_input(
                            starting_value(*values, names[i]),
                        ).all_selected()
                    &&& sheet.focused == 0
                    &&& sheet.statements == statements
                    &&& sheet.explain == explain
                },
                None => names.len() == 0,
            }
        }),
{
    let mut names: Vec<String> = Vec::new();
    let mut i: usize = 0;
    assert(texts(names@) == Seq::<Seq<char>>::empty());
    while i < found.len()
        invariant
            i <= found@.len(),
            texts(names@) == names_in(found@, i as int),
        decreases found@.len() - i,
    {
        add_names(&mut names, &found[i]);
        i += 1;
    }
    assert(texts(names@).len() == names@.len());
    if names.len() == 0 {
        return None;
    }
    let mut inputs: Vec<TextInput> = Vec::new();
    let mut n: usize = 0;
    while n < names.len()
        invariant
            n <= names@.len(),
            inputs@.len() == n,
            forall|k: int|
                0 <= k < n ==> (#[trigger] inputs@[k])@ == line_input(
                    starting_value(*values, texts(names@)[k]),
                ).all_selected(),
        decreases names@.len() - n,
    {
        let value = match values.get(names[n].as_str()) {
            Some(value) => value,
            None => String::new(),
        };
        assert(texts(names@)[n as int] == names@[n as int]@);
        let mut input = TextInput::with_text(value, false);
        input.select_all();
        inputs.push(input);
        n += 1;
    }
    proof {
        each_name_is_asked_for_once(found@, Seq::empty());
    }
    *completion = None;
    Some(ParamSheet { names, inputs, focused: 0, statements, explain })
}

impl ParamSheet {
    /// A field for every name, and no name twice.
    pub open spec fn wf(self) -> bool {
        &&& self.names@.len() == self.inputs@.len()
        &&& self.names@.len() > 0
        &&& texts(self.names@).no_duplicates()
        &&& self.focused < self.inputs@.len()
    }

    /// Remembers what every name was given.
    pub fn remember(&self, values: &mut ParamValues)
        requires
            self.wf(),
        ensures
            forall|i: int|
                0 <= i < self.names@.len() ==> final(values).given(#[trigger] self.names@[i]@)
                    == Some(self.inputs@[i]@.text),
            forall|other: Seq<char>|
                !texts(self.names@).contains(other) ==> #[trigger] final(values).given(other)
                    == old(values).given(other),
    {
        let mut i: usize = 0;
        while i < self.names.len()
            invariant
                i <= self.names@.len(),
                self.wf(),
                forall|k: int|
                    0 <= k < i ==> values.given(#[trigger] self.names@[k]@) == Some(
                        self.inputs@[k]@.text,
                    ),
                forall|other: Seq<char>|
                    !texts(self.names@).contains(other) ==> #[trigger] values.given(other) == old(
                        values,
                    ).given(other),
            decreases self.names@.len() - i,
        {
            let ghost before = *values;
            values.insert(self.names[i].as_str(), self.inputs[i].text());
            proof {
                assert(texts(self.names@)[i as int] == self.names@[i as int]@);
                assert forall|k: int| 0 <= k < i implies values.given(#[trigger] self.names@[k]@)
                    == Some(self.inputs@[k]@.text) by {
                    assert(texts(self.names@)[k] == self.names@[k]@);
                    assert(before.given(self.names@[k]@) == Some(self.inputs@[k]@.text));
                    assert(values.given(self.names@[k]@) == before.given(self.names@[k]@));
                }
            }
            i += 1;
        }
    }
}

/// Run: what every name was given is remembered, and the statements go out to be
/// filled in from that. Says which statements, and whether they are explained.
pub fn run_with_params(sheet: Option<ParamSheet>, values: &mut ParamValues) -> (sent: Option<
    (Vec<String>, bool),
>)
    requires
        sheet matches Some(sheet) ==> sheet.wf(),
    ensures
        match sheet {
            Some(sheet) => {
                &&& sent == Some((sheet.statements, sheet.explain))
                &&& forall|i: int|
                    0 <= i < sheet.names@.len() ==> final(values).given(
                        #[trigger] sheet.names@[i]@,
                    ) == Some(sheet.inputs@[i]@.text)
                &&& forall|other: Seq<char>|
                    !texts(sheet.names@).contains(other) ==> #[trigger] final(values).given(other)
                        == old(values).given(other)
            },
            None => sent is None && *final(values) == *old(values),
        },
{
    match sheet {
        Some(sheet) => {
            sheet.remember(values);
            Some((sheet.statements, sheet.explain))
        },
        None => None,
    }
}

/// Asked again, a name's field holds what it was given last time.
pub proof fn a_name_is_remembered(values: ParamValues, name: Seq<char>, value: Seq<char>)
    requires
        values.given(name) == Some(value),
    ensures
        starting_value(values, name) == value,
{
}

/// What a key does in the sheet.
#[derive(Debug, Clone, Copy, PartialEq, Eq, Structural)]
pub enum ParamKey {
    Close,
    Run,
    Moved,
    /// The field there takes it, if it wants it.
    Edit(usize),
    Ignored,
}

impl ParamSheet {
    /// A key while the sheet is up. Tab selects what the field it moves to holds,
    /// so that typing replaces it. Enter runs unmodified, so the ⌘↵ that opened
    /// the sheet does not also answer it.
    pub fn handle_param_sheet_key(&mut self, keystroke: &Keystroke) -> (does: ParamKey)
        requires
            old(self).inputs@.len() > 0,
            old(self).focused + old(self).inputs@.len() <= usize::MAX,
        ensures
            final(self).names == old(self).names,
            does == ParamKey::Moved ==> final(self).inputs@.len() == old(self).inputs@.len()
                && final(self).inputs@[final(self).focused as int]@ == old(
                self,
            ).inputs@[final(self).focused as int]@.all_selected() && forall|i: int|
                0 <= i < old(self).inputs@.len() && i != final(self).focused
                    ==> #[trigger] final(self).inputs@[i] == old(self).inputs@[i],
            does != ParamKey::Moved ==> final(self).inputs == old(self).inputs,
            final(self).statements == old(self).statements,
            final(self).explain == old(self).explain,
            final(self).focused == (if does == ParamKey::Moved {
                tabbed(
                    old(self).focused as int,
                    old(self).inputs@.len() as int,
                    keystroke.shift,
                )
            } else {
                old(self).focused as int
            }),
            does == (if keystroke.key@ == "escape"@ {
                ParamKey::Close
            } else if keystroke.key@ == "enter"@ && !keystroke.platform {
                ParamKey::Run
            } else if keystroke.key@ == "tab"@ {
                ParamKey::Moved
            } else if old(self).focused < old(self).inputs@.len() {
                ParamKey::Edit(old(self).focused)
            } else {
                ParamKey::Ignored
            }),
    {
        let key = keystroke.key.as_str();
        if same(key, "escape") {
            return ParamKey::Close;
        }
        if same(key, "enter") && !keystroke.platform {
            return ParamKey::Run;
        }
        if same(key, "tab") {
            let count: usize = self.inputs.len();
            self.focused = if keystroke.shift {
                (self.focused + (count - 1)) % count
            } else {
                (self.focused + 1) % count
            };
            self.inputs[self.focused].select_all();
            return ParamKey::Moved;
        }
        if self.focused < self.inputs.len() {
            ParamKey::Edit(self.focused)
        } else {
            ParamKey::Ignored
        }
    }
}

/// A field of the sheet as it is drawn.
#[derive(Debug)]
pub struct ParamRow {
    pub label: String,
    pub value: String,
    /// What the field says while it is empty.
    pub placeholder: String,
    pub focused: bool,
}

pub open spec fn param_row_is(row: ParamRow, sheet: ParamSheet, i: int) -> bool {
    &&& row.label@ == ":"@ + sheet.names@[i]@
    &&& row.value@ == sheet.inputs@[i]@.text
    &&& row.placeholder@ == "value"@
    &&& row.focused == (sheet.focused == i)
}

/// The sheet as it is drawn.
#[derive(Debug)]
pub struct ParamView {
    pub title: String,
    pub rows: Vec<ParamRow>,
    /// How a value goes in, and what the keys do.
    pub hint: String,
    pub cancel: String,
    pub verb: String,
}

/// What the sheet shows: a row for each name, and what its buttons say.
pub fn render_param_sheet(sheet: &ParamSheet) -> (view: ParamView)
    requires
        sheet.names@.len() <= sheet.inputs@.len(),
    ensures
        view.title@ == "Parameters"@,
        view.rows@.len() == sheet.names@.len(),
        forall|i: int|
            0 <= i < view.rows@.len() ==> param_row_is(#[trigger] view.rows@[i], *sheet, i),
        view.hint@
            == "Numbers, NULL, true and false go in as they are; anything else as a string. Tab moves, ↵ runs, Esc cancels."@,
        view.cancel@ == "Cancel"@,
        view.verb@ == (if sheet.explain {
            "Explain"@
        } else {
            "Run"@
        }),
{
    let mut rows: Vec<ParamRow> = Vec::new();
    let mut i: usize = 0;
    while i < sheet.names.len()
        invariant
            i <= sheet.names@.len() <= sheet.inputs@.len(),
            rows@.len() == i,
            forall|k: int| 0 <= k < i ==> param_row_is(#[trigger] rows@[k], *sheet, k),
        decreases sheet.names@.len() - i,
    {
        let mut label: String = ":".to_string();
        label.append(sheet.names[i].as_str());
        rows.push(
            ParamRow {
                label,
                value: sheet.inputs[i].text().to_string(),
                placeholder: "value".to_string(),
                focused: sheet.focused == i,
            },
        );
        i += 1;
    }
    ParamView {
        title: "Parameters".to_string(),
        rows,
        hint:
            "Numbers, NULL, true and false go in as they are; anything else as a string. Tab moves, ↵ runs, Esc cancels.".to_string(),
        cancel: "Cancel".to_string(),
        verb: if sheet.explain {
            "Explain".to_string()
        } else {
            "Run".to_string()
        },
    }
}

/// What a name was given is what stands with its first mention, and a name that is
/// not mentioned was given nothing.
pub proof fn a_name_has_its_first_value(values: ParamValues, name: Seq<char>)
    ensures
        match values.given(name) {
            Some(value) => exists|i: int|
                0 <= i < values.values@.len() && (#[trigger] values.values@[i]).0@ == name
                    && values.values@[i].1@ == value && (forall|j: int|
                    0 <= j < i ==> (#[trigger] values.values@[j]).0@ != name),
            None => forall|i: int|
                0 <= i < values.values@.len() ==> (#[trigger] values.values@[i]).0@ != name,
        },
        values.given(name) is None ==> starting_value(values, name).len() == 0,
{
    lemma_lookup_is_first(values.values@, name, 0);
}

proof fn lemma_lookup_is_first(values: Seq<(String, String)>, name: Seq<char>, from: int)
    requires
        0 <= from <= values.len(),
    ensures
        match lookup(values, name, from) {
            Some(value) => exists|i: int|
                from <= i < values.len() && (#[trigger] values[i]).0@ == name && values[i].1@
                    == value && (forall|j: int|
                    from <= j < i ==> (#[trigger] values[j]).0@ != name),
            None => forall|i: int|
                from <= i < values.len() ==> (#[trigger] values[i]).0@ != name,
        },
    decreases values.len() - from,
{
    if from < values.len() && values[from].0@ != name {
        lemma_lookup_is_first(values, name, from + 1);
        if let Some(value) = lookup(values, name, from + 1) {
            let i = choose|i: int|
                from + 1 <= i < values.len() && (#[trigger] values[i]).0@ == name && values[i].1@
                    == value && (forall|j: int|
                    from + 1 <= j < i ==> (#[trigger] values[j]).0@ != name);
            assert forall|j: int| from <= j < i implies (#[trigger] values[j]).0@ != name by {
            }
        }
    }
}

/// Whether a name is met for the first time.
pub open spec fn name_is_new(
    known: Seq<Seq<char>>,
    found: Seq<Seq<char>>,
) -> spec_fn(int) -> bool {
    |i: int| !known.contains(found[i]) && !found.take(i).contains(found[i])
}

proof fn lemma_new_names(
    known: Seq<Seq<char>>,
    found: Seq<Seq<char>>,
    upto: int,
) -> (places: Seq<int>)
    requires
        known.no_duplicates(),
        0 <= upto <= found.len(),
    ensures
        places_where(places, upto, name_is_new(known, found)),
        with_names(known, found.take(upto)) == known + Seq::new(
            places.len(),
            |k: int| found[places[k]],
        ),
    decreases upto,
{
    let holds = name_is_new(known, found);
    let places = if upto == 0 {
        Seq::<int>::empty()
    } else {
        let n = upto - 1;
        let before = lemma_new_names(known, found, n);
        lemma_places_step(before, n, holds);
        lemma_with_names(known, found.take(n), found[n]);
        assert(found.take(upto).drop_last() == found.take(n));
        if holds(n) {
            before.push(n)
        } else {
            before
        }
    };
    assert(with_names(known, found.take(upto)) == known + Seq::new(
        places.len(),
        |k: int| found[places[k]],
    ));
    places
}

/// The names are asked for in the order in which the statements mention them: what
/// a further statement adds comes after what was known, each name where it is
/// first met.
pub proof fn the_names_are_asked_for_in_order(found: Seq<Vec<String>>, upto: int)
    requires
        0 < upto <= found.len(),
    ensures
        ({
            let known = names_in(found, upto - 1);
            let more = texts(found[upto - 1]@);
            exists|places: Seq<int>| #[trigger]
                places_where(places, more.len() as int, name_is_new(known, more)) && names_in(
                    found,
                    upto,
                ) == known + Seq::new(places.len(), |k: int| more[places[k]])
        }),
        names_in(found, 0).len() == 0,
{
    let known = names_in(found, upto - 1);
    let more = texts(found[upto - 1]@);
    lemma_names_in(found, upto - 1, Seq::empty());
    assert(more.take(more.len() as int) == more);
    let places = lemma_new_names(known, more, more.len() as int);
}

/// A field is labelled as its name is written in the statement, and shows what is
/// typed for it.
pub proof fn a_field_is_labelled_as_it_is_written(row: ParamRow, sheet: ParamSheet, i: int)
    requires
        0 <= i < sheet.names@.len(),
        param_row_is(row, sheet, i),
    ensures
        row.label@ == seq![':'] + sheet.names@[i]@,
        row.value@ == sheet.inputs@[i]@.text,
        row.focused <==> sheet.focused == i,
{
    reveal_strlit(":");
    assert(":"@ == seq![':']);
}

} // verus!
