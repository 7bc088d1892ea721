//! The new/edit connection sheet.
use crate::controls::{form_button_is, FormButton};
use crate::domain::{ConnectionId, Tone};
use crate::keys::Keystroke;
use crate::text::{
    a_written_number_reads_back, chars_of, decimal, decimal_text, lemma_bytes_concat,
    lemma_decimal_is_trimmed, lemma_part_is_valid, parse_up_to, parsed, same, slice, trim, trimmed,
};
use crate::text_input::{line_input, InputView, TextInput};
use crate::transfer::text_at;
use std::ops::Range;
use vstd::prelude::*;
use vstd::string::*;
use vstd::utf8::{
    decode_utf8_encode_utf8, encode_utf8, encode_utf8_decode_utf8, encode_utf8_valid_utf8,
    is_char_boundary, is_char_boundary_start_end_of_seq,
};

verus! {

/// A database engine, with the conventions a new connection starts from.
#[derive(Debug)]
pub struct Driver {
    /// Which engine it is.
    pub kind: u64,
    pub label: String,
    pub default_port: u16,
    pub default_username: String,
}

impl Driver {
    /// The same engine with the same conventions.
    pub open spec fn same_as(self, other: Driver) -> bool {
        self.kind == other.kind && self.label@ == other.label@ && self.default_port
            == other.default_port && self.default_username@ == other.default_username@
    }

    fn copy(&self) -> (copy: Driver)
        ensures
            copy.same_as(*self),
    {
        Driver {
            kind: self.kind,
            label: self.label.as_str().to_string(),
            default_port: self.default_port,
            default_username: self.default_username.as_str().to_string(),
        }
    }
}

/// How the connection is secured, by the mode's place among those on offer.
#[derive(Debug, Clone, Copy, PartialEq, Eq, Structural)]
pub struct TlsMode(pub u8);

/// What the connection is used for, by its place among those on offer.
#[derive(Debug, Clone, Copy, PartialEq, Eq, Structural)]
pub struct Environment(pub u8);

#[derive(Debug)]
pub struct ConnectionConfig {
    pub id: ConnectionId,
    pub driver: Driver,
    pub name: String,
    pub host: String,
    pub port: u16,
    pub username: String,
    pub password: String,
    pub database: String,
    pub tls: TlsMode,
    pub environment: Environment,
}

/// One editable field of the form.
#[derive(Debug, Clone, Copy, PartialEq, Eq, Structural)]
pub enum Field {
    Name,
    Host,
    Port,
    Username,
    Password,
    Database,
}

/// A field's place in the tab order, which is also the order they are drawn in.
pub open spec fn place(field: Field) -> int {
    match field {
        Field::Name => 0,
        Field::Host => 1,
        Field::Port => 2,
        Field::Username => 3,
        Field::Password => 4,
        Field::Database => 5,
    }
}

pub open spec fn field_label(field: Field) -> Seq<char> {
    match field {
        Field::Name => "Name"@,
        Field::Host => "Host"@,
        Field::Port => "Port"@,
        Field::Username => "User"@,
        Field::Password => "Password"@,
        Field::Database => "Database"@,
    }
}

impl Field {
    /// Tab order, which is also the order they are drawn in.
    pub fn order() -> (order: [Field; 6])
        ensures
            forall|i: int| 0 <= i < 6 ==> place(#[trigger] order@[i]) == i,
    {
        [
            Field::Name,
            Field::Host,
            Field::Port,
            Field::Username,
            Field::Password,
            Field::Database,
        ]
    }

    fn index(self) -> (index: usize)
        ensures
            index == place(self),
            index < 6,
    {
        match self {
            Field::Name => 0,
            Field::Host => 1,
            Field::Port => 2,
            Field::Username => 3,
            Field::Password => 4,
            Field::Database => 5,
        }
    }

    pub fn label(self) -> (label: &'static str)
        ensures
            label@ == field_label(self),
    {
        match self {
            Field::Name => "Name",
            Field::Host => "Host",
            Field::Port => "Port",
            Field::Username => "User",
            Field::Password => "Password",
            Field::Database => "Database",
        }
    }

    /// Passwords render as bullets.
    pub fn is_secret(self) -> (secret: bool)
        ensures
            secret == (self == Field::Password),
    {
        match self {
            Field::Password => true,
            _ => false,
        }
    }
}

/// What a field of a configuration reads as.
pub open spec fn value_of(config: ConnectionConfig, field: Field) -> Seq<char> {
    match field {
        Field::Name => config.name@,
        Field::Host => config.host@,
        Field::Port => decimal(config.port as nat),
        Field::Username => config.username@,
        Field::Password => config.password@,
        Field::Database => config.database@,
    }
}

fn field_value(config: &ConnectionConfig, field: Field) -> (value: String)
    ensures
        value@ == value_of(*config, field),
{
    match field {
        Field::Name => config.name.as_str().to_string(),
        Field::Host => config.host.as_str().to_string(),
        Field::Port => decimal_text(config.port as u64),
        Field::Username => config.username.as_str().to_string(),
        Field::Password => config.password.as_str().to_string(),
        Field::Database => config.database.as_str().to_string(),
    }
}

/// Which control in the connection sheet owns Enter.
#[derive(Debug, Clone, Copy, PartialEq, Eq, Structural)]
pub enum FormAction {
    Field,
    Cancel,
    Test,
    Save,
}

/// What a key does in the sheet.
#[derive(Debug, Clone, Copy, PartialEq, Eq, Structural)]
pub enum FormKey {
    /// Tab: the keyboard moved on.
    Moved,
    /// A button has the keyboard, and it is no key of its own.
    NotTaken,
    /// The input at this index takes it, if it wants it.
    Field(usize),
}

#[derive(Debug)]
pub struct ConnectionForm {
    /// Carries the parts that are not free text: the id, the driver, the TLS
    /// mode, the environment. The text fields carry the rest.
    pub config: ConnectionConfig,
    pub fields: Vec<TextInput>,
    /// Tab order: fields first, then Cancel / Test / Save.
    pub focused: usize,
    pub testing: bool,
    /// `(ok, text)`: the result of the last Test, or a validation complaint.
    pub message: Option<(bool, String)>,
    /// Editing an existing connection rather than creating one. Only changes
    /// the wording; saving is the same operation either way.
    pub editing: bool,
}

/// How many controls the keyboard goes around: the fields and three buttons.
pub open spec fn controls() -> int {
    9
}

/// An input after the engine changed: the new engine's default, with nothing
/// selected, where it held the old one's; untouched where it held anything else.
pub open spec fn re_defaulted(
    input: InputView,
    old_default: Seq<char>,
    new_default: Seq<char>,
) -> InputView {
    if input.text == old_default {
        InputView { text: new_default, selection: None, ..input }
    } else {
        input
    }
}

impl ConnectionForm {
    /// One input for each field, and the keyboard on one of the controls.
    pub open spec fn wf(self) -> bool {
        self.fields@.len() == 6 && self.focused < controls()
    }

    /// A field's input.
    pub open spec fn input(self, field: Field) -> InputView {
        self.fields@[place(field)]@
    }

    /// What has been typed into a field.
    pub open spec fn typed(self, field: Field) -> Seq<char> {
        self.input(field).text
    }

    /// Which control has the keyboard: the fields in order, then Cancel, Test
    /// and Save.
    pub open spec fn focus_place(self) -> int {
        self.focused as int
    }

    /// The parts that are not free text.
    pub open spec fn base(self) -> ConnectionConfig {
        self.config
    }

    pub open spec fn told(self) -> Option<(bool, Seq<char>)> {
        match self.message {
            Some((ok, text)) => Some((ok, text@)),
            None => None,
        }
    }

    pub open spec fn edits(self) -> bool {
        self.editing
    }

    /// Another form that differs in nothing but where the keyboard is.
    pub open spec fn same_but_focus(self, other: ConnectionForm) -> bool {
        self.config == other.config && self.fields == other.fields && self.testing
            == other.testing && self.message == other.message && self.editing == other.editing
    }

    /// A sheet for a new connection, starting from the default engine's defaults.
    pub fn new(config: ConnectionConfig) -> (form: Self)
        ensures
            form.wf(),
            forall|field: Field| #[trigger]
                form.input(field) == line_input(value_of(config, field)),
            forall|field: Field| #[trigger] form.typed(field) == value_of(config, field),
            form.base() == config,
            form.focus_place() == 0,
            !form.testing,
            form.told() is None,
            !form.edits(),
    {
        Self::from_config(config, false)
    }

    /// A sheet for a connection there is.
    pub fn editing(config: ConnectionConfig) -> (form: Self)
        ensures
            form.wf(),
            forall|field: Field| #[trigger]
                form.input(field) == line_input(value_of(config, field)),
            forall|field: Field| #[trigger] form.typed(field) == value_of(config, field),
            form.base() == config,
            form.focus_place() == 0,
            !form.testing,
            form.told() is None,
            form.edits(),
    {
        Self::from_config(config, true)
    }

    fn from_config(config: ConnectionConfig, editing: bool) -> (form: Self)
        ensures
            form.wf(),
            forall|field: Field| #[trigger]
                form.input(field) == line_input(value_of(config, field)),
            forall|field: Field| #[trigger] form.typed(field) == value_of(config, field),
            form.base() == config,
            form.focus_place() == 0,
            !form.testing,
            form.told() is None,
            form.edits() == editing,
    {
        let order = Field::order();
        let mut fields: Vec<TextInput> = Vec::new();
        let mut i: usize = 0;
        while i < 6
            invariant
                i <= 6,
                fields@.len() == i,
                forall|k: int| 0 <= k < 6 ==> place(#[trigger] order@[k]) == k,
                forall|field: Field|
                    place(field) < i ==> fields@[#[trigger] place(field)]@ == line_input(
                        value_of(config, field),
                    ),
            decreases 6 - i,
        {
            let value = field_value(&config, order[i]);
            assert(place(order@[i as int]) == i);
            fields.push(TextInput::with_text(value, false));
            i += 1;
        }
        ConnectionForm { config, fields, focused: 0, testing: false, message: None, editing }
    }

    pub fn focused_action(&self) -> (action: FormAction)
        requires
            self.wf(),
        ensures
            action == (if self.focus_place() < 6 {
                FormAction::Field
            } else if self.focus_place() == 6 {
                FormAction::Cancel
            } else if self.focus_place() == 7 {
                FormAction::Test
            } else {
                FormAction::Save
            }),
    {
        let n: usize = self.fields.len();
        if self.focused < n {
            FormAction::Field
        } else if self.focused == n {
            FormAction::Cancel
        } else if self.focused == n + 1 {
            FormAction::Test
        } else {
            FormAction::Save
        }
    }

    pub fn focus_action(&mut self, action: FormAction)
        requires
            old(self).wf(),
        ensures
            final(self).wf(),
            final(self).same_but_focus(*old(self)),
            final(self).focus_place() == (match action {
                FormAction::Field => 0int,
                FormAction::Cancel => 6,
                FormAction::Test => 7,
                FormAction::Save => 8,
            }),
    {
        let n: usize = self.fields.len();
        self.focused = match action {
            FormAction::Field => 0,
            FormAction::Cancel => n,
            FormAction::Test => n + 1,
            FormAction::Save => n + 2,
        };
    }

    pub fn set_message(&mut self, ok: bool, text: String)
        ensures
            final(self).told() == Some((ok, text@)),
            final(self).base() == old(self).base(),
            final(self).focus_place() == old(self).focus_place(),
            final(self).edits() == old(self).edits(),
            final(self).testing == old(self).testing,
            final(self).fields == old(self).fields,
            old(self).wf() ==> final(self).wf(),
    {
        self.message = Some((ok, text));
    }

    fn text(&self, field: Field) -> (text: &str)
        requires
            self.wf(),
        ensures
            text@ == self.typed(field),
    {
        self.fields[field.index()].text()
    }

    /// Rebuild a config from what has been typed.
    ///
    /// A port that will not parse falls back to the driver's default rather
    /// than to zero: a half-typed port should not silently become an invalid
    /// one, and validation would only report a number the user never entered.
    pub fn to_config(&self) -> (config: ConnectionConfig)
        requires
            self.wf(),
        ensures
            rebuilt(config, *self),
    {
        let port_text = trim(self.text(Field::Port));
        let port: u16 = match parse_up_to(port_text.as_str(), 65_535) {
            Some(port) => port as u16,
            None => self.config.driver.default_port,
        };
        ConnectionConfig {
            id: self.config.id,
            driver: self.config.driver.copy(),
            name: trim(self.text(Field::Name)),
            host: trim(self.text(Field::Host)),
            port,
            username: trim(self.text(Field::Username)),
            password: self.text(Field::Password).to_string(),
            database: trim(self.text(Field::Database)),
            tls: self.config.tls,
            environment: self.config.environment,
        }
    }

    pub fn driver(&self) -> (driver: &Driver)
        ensures
            *driver == self.base().driver,
    {
        &self.config.driver
    }

    pub fn tls(&self) -> (tls: TlsMode)
        ensures
            tls == self.base().tls,
    {
        self.config.tls
    }

    pub fn is_editing(&self) -> (editing: bool)
        ensures
            editing == self.edits(),
    {
        self.editing
    }

    fn set_text(&mut self, field: Field, value: &str)
        requires
            old(self).wf(),
        ensures
            final(self).wf(),
            final(self).input(field) == (InputView {
                text: value@,
                selection: None,
                ..old(self).input(field)
            }),
            forall|other: Field|
                other != field ==> #[trigger] final(self).input(other) == old(self).input(other),
            final(self).base() == old(self).base(),
            final(self).focus_place() == old(self).focus_place(),
            final(self).told() == old(self).told(),
            final(self).edits() == old(self).edits(),
            final(self).testing == old(self).testing,
    {
        let index: usize = field.index();
        self.fields[index].set_text(value);
    }

    /// Switching engines re-defaults the port and the user: the old values were
    /// the other engine's conventions and are almost never right here. Anything
    /// the user actually typed is left alone.
    pub fn set_driver(&mut self, driver: Driver)
        requires
            old(self).wf(),
        ensures
            final(self).wf(),
            final(self).focus_place() == old(self).focus_place(),
            final(self).told() == old(self).told(),
            final(self).edits() == old(self).edits(),
            final(self).testing == old(self).testing,
            old(self).base().driver.kind == driver.kind ==> *final(self) == *old(self),
            old(self).base().driver.kind != driver.kind ==> {
                let before = old(self).base().driver;
                &&& final(self).base() == (ConnectionConfig { driver, ..old(self).base() })
                &&& final(self).input(Field::Port) == re_defaulted(
                    old(self).input(Field::Port),
                    decimal(before.default_port as nat),
                    decimal(driver.default_port as nat),
                )
                &&& final(self).input(Field::Username) == re_defaulted(
                    old(self).input(Field::Username),
                    before.default_username@,
                    driver.default_username@,
                )
                &&& final(self).input(Field::Name) == re_defaulted(
                    old(self).input(Field::Name),
                    "New "@ + before.label@,
                    "New "@ + driver.label@,
                )
                &&& final(self).input(Field::Host) == old(self).input(Field::Host)
                &&& final(self).input(Field::Password) == old(self).input(Field::Password)
                &&& final(self).input(Field::Database) == old(self).input(Field::Database)
            },
    {
        if self.config.driver.kind == driver.kind {
            return;
        }
        let previous = self.config.driver.copy();
        let old_port = decimal_text(previous.default_port as u64);
        let new_port = decimal_text(driver.default_port as u64);
        let new_user = driver.default_username.as_str().to_string();
        let mut old_name: String = "New ".to_string();
        old_name.append(previous.label.as_str());
        let mut new_name: String = "New ".to_string();
        new_name.append(driver.label.as_str());
        self.config.driver = driver;
        if same(self.text(Field::Port), old_port.as_str()) {
            self.set_text(Field::Port, new_port.as_str());
        }
        if same(self.text(Field::Username), previous.default_username.as_str()) {
            self.set_text(Field::Username, new_user.as_str());
        }
        if same(self.text(Field::Name), old_name.as_str()) {
            self.set_text(Field::Name, new_name.as_str());
        }
    }

    pub fn set_tls(&mut self, tls: TlsMode)
        ensures
            final(self).base() == (ConnectionConfig { tls, ..old(self).base() }),
            final(self).focus_place() == old(self).focus_place(),
            final(self).told() == old(self).told(),
            final(self).edits() == old(self).edits(),
            final(self).testing == old(self).testing,
            final(self).fields == old(self).fields,
            old(self).wf() ==> final(self).wf(),
    {
        self.config.tls = tls;
    }

    pub fn focus(&mut self, field: Field)
        requires
            old(self).wf(),
        ensures
            final(self).wf(),
            final(self).same_but_focus(*old(self)),
            final(self).focus_place() == place(field),
    {
        self.focused = field.index();
    }

    /// A key in the sheet: Tab goes around the controls, anything else belongs
    /// to the field that has the keyboard.
    pub fn handle_key(&mut self, keystroke: &Keystroke) -> (does: FormKey)
        requires
            old(self).wf(),
        ensures
            final(self).wf(),
            final(self).same_but_focus(*old(self)),
            ({
                let at = old(self).focus_place();
                if keystroke.key@ == "tab"@ && !keystroke.platform {
                    &&& does == FormKey::Moved
                    &&& final(self).focus_place() == tab_step(at, keystroke.shift)
                } else {
                    &&& final(self).focus_place() == at
                    &&& does == (if at >= 6 {
                        FormKey::NotTaken
                    } else {
                        FormKey::Field(at as usize)
                    })
                }
            }),
    {
        if same(keystroke.key.as_str(), "tab") && !keystroke.platform {
            let count: usize = self.fields.len() + 3;
            self.focused = if keystroke.shift {
                (self.focused + count - 1) % count
            } else {
                (self.focused + 1) % count
            };
            return FormKey::Moved;
        }
        if self.focused >= self.fields.len() {
            FormKey::NotTaken
        } else {
            FormKey::Field(self.focused)
        }
    }

    /// The input at an index, to be typed into.
    pub fn field_mut(&mut self, index: usize) -> (input: Option<&mut TextInput>)
        requires
            old(self).wf(),
        ensures
            match input {
                Some(input) => {
                    &&& index < 6
                    &&& forall|field: Field| #[trigger]
                        place(field) == index ==> input@ == old(self).input(field)
                            && final(self).input(field) == final(input)@
                    &&& forall|field: Field|
                        place(field) != index ==> #[trigger] final(self).input(field) == old(
                            self,
                        ).input(field)
                    &&& final(self).wf()
                    &&& final(self).base() == old(self).base()
                    &&& final(self).focus_place() == old(self).focus_place()
                    &&& final(self).told() == old(self).told()
                    &&& final(self).edits() == old(self).edits()
                    &&& final(self).testing == old(self).testing
                },
                None => index >= 6 && *final(self) == *old(self),
            },
    {
        if index < self.fields.len() {
            Some(&mut self.fields[index])
        } else {
            None
        }
    }
}

/// What a sheet comes to once it is saved: every field as it was typed, without
/// the white space around it, and the password as it is.
pub open spec fn rebuilt(config: ConnectionConfig, form: ConnectionForm) -> bool {
    &&& config.id == form.base().id
    &&& config.driver.same_as(form.base().driver)
    &&& config.tls == form.base().tls
    &&& config.environment == form.base().environment
    &&& config.name@ == trimmed(form.typed(Field::Name))
    &&& config.host@ == trimmed(form.typed(Field::Host))
    &&& config.port == (match parsed(trimmed(form.typed(Field::Port)), 65_535) {
        Some(port) => port as int,
        None => form.base().driver.default_port as int,
    })
    &&& config.username@ == trimmed(form.typed(Field::Username))
    &&& config.password@ == form.typed(Field::Password)
    &&& config.database@ == trimmed(form.typed(Field::Database))
}

/// A connection's sheet, saved as it was opened, gives the connection back.
pub proof fn an_untouched_sheet_saves_what_it_opened(
    config: ConnectionConfig,
    form: ConnectionForm,
    saved: ConnectionConfig,
)
    requires
        forall|field: Field| #[trigger] form.typed(field) == value_of(config, field),
        form.base() == config,
        rebuilt(saved, form),
        trimmed(config.name@) == config.name@,
        trimmed(config.host@) == config.host@,
        trimmed(config.username@) == config.username@,
        trimmed(config.database@) == config.database@,
    ensures
        saved.id == config.id,
        saved.driver.same_as(config.driver),
        saved.tls == config.tls,
        saved.environment == config.environment,
        forall|field: Field| #[trigger] value_of(saved, field) == value_of(config, field),
        saved.port == config.port,
{
    a_port_survives_the_sheet(config.port);
    assert(form.typed(Field::Port) == value_of(config, Field::Port));
    assert(form.typed(Field::Name) == value_of(config, Field::Name));
    assert(form.typed(Field::Host) == value_of(config, Field::Host));
    assert(form.typed(Field::Username) == value_of(config, Field::Username));
    assert(form.typed(Field::Password) == value_of(config, Field::Password));
    assert(form.typed(Field::Database) == value_of(config, Field::Database));
}

/// Where Tab goes from a control, around the ends; ⇧Tab goes the other way.
pub open spec fn tab_step(at: int, back: bool) -> int {
    if back {
        (at + controls() - 1) % controls()
    } else {
        (at + 1) % controls()
    }
}

/// Tab and ⇧Tab undo each other, and either goes all the way around.
pub proof fn tab_and_shift_tab_undo_each_other(at: int)
    requires
        0 <= at < controls(),
    ensures
        tab_step(tab_step(at, false), true) == at,
        tab_step(tab_step(at, true), false) == at,
        0 <= tab_step(at, false) < controls(),
        0 <= tab_step(at, true) < controls(),
{
}

/// The port that a sheet opened on a connection reads back is the connection's
/// own.
pub proof fn a_port_survives_the_sheet(port: u16)
    ensures
        parsed(trimmed(decimal(port as nat)), 65_535) == Some(port as nat),
{
    lemma_decimal_is_trimmed(port as nat);
    a_written_number_reads_back(port as nat, 65_535);
}

/// As many bullets as there are characters.
pub open spec fn bullets(count: nat) -> Seq<char> {
    Seq::new(count, |i: int| '•')
}

/// A part of a field as it is drawn: a secret as bullets, anything else as it
/// is.
pub open spec fn masked(part: Seq<char>, secret: bool) -> Seq<char> {
    if secret {
        bullets(part.len())
    } else {
        part
    }
}

pub fn mask(part: &str, secret: bool) -> (drawn: String)
    ensures
        drawn@ == masked(part@, secret),
{
    if !secret {
        return part.to_string();
    }
    let count: usize = chars_of(part).len();
    let mut drawn: String = String::new();
    let mut i: usize = 0;
    while i < count
        invariant
            i <= count,
            drawn@ == bullets(i as nat),
        decreases count - i,
    {
        drawn.push('•');
        i += 1;
        assert(drawn@ == bullets(i as nat));
    }
    drawn
}

/// Two secrets of the same length look the same.
pub proof fn a_drawn_secret_tells_only_its_length(a: Seq<char>, b: Seq<char>)
    requires
        a.len() == b.len(),
    ensures
        masked(a, true) == masked(b, true),
{
}

/// A field's text around its selection, or around the caret where nothing is
/// selected.
#[derive(Debug)]
pub enum FieldText {
    Selected { before: String, selected: String, after: String },
    Caret { before: String, after: String },
}

pub open spec fn whole(text: Seq<char>) -> int {
    encode_utf8(text).len() as int
}

pub open spec fn part(text: Seq<char>, from: int, to: int) -> Seq<char> {
    text_at(text, Range { start: from as usize, end: to as usize })
}

/// Where a field's selection and caret are, in bytes of its text.
#[derive(Debug)]
pub struct FieldCaret {
    pub selection: Range<usize>,
    pub cursor: usize,
}

impl FieldCaret {
    /// The selection and the caret lie between characters of the text.
    pub open spec fn fits(self, text: Seq<char>) -> bool {
        &&& self.selection.start <= self.selection.end <= whole(text)
        &&& is_char_boundary(encode_utf8(text), self.selection.start as int)
        &&& is_char_boundary(encode_utf8(text), self.selection.end as int)
        &&& self.cursor <= whole(text)
        &&& is_char_boundary(encode_utf8(text), self.cursor as int)
    }
}

pub open spec fn field_text_is(
    drawn: FieldText,
    text: Seq<char>,
    caret: FieldCaret,
    secret: bool,
) -> bool {
    let start = caret.selection.start as int;
    let end = caret.selection.end as int;
    let cursor = caret.cursor as int;
    match drawn {
        FieldText::Selected { before, selected, after } => {
            &&& start != end
            &&& before@ == masked(part(text, 0, start), secret)
            &&& selected@ == masked(part(text, start, end), secret)
            &&& after@ == masked(part(text, end, whole(text)), secret)
        },
        FieldText::Caret { before, after } => {
            &&& start == end
            &&& before@ == masked(part(text, 0, cursor), secret)
            &&& after@ == masked(part(text, cursor, whole(text)), secret)
        },
    }
}

/// All the characters that a field draws.
pub open spec fn drawn_chars(drawn: FieldText) -> Seq<char> {
    match drawn {
        FieldText::Selected { before, selected, after } => before@ + selected@ + after@,
        FieldText::Caret { before, after } => before@ + after@,
    }
}

/// Wherever the selection and the caret are, a field draws its whole text and
/// nothing else; a secret draws a bullet for each character of it.
pub proof fn a_field_draws_its_whole_text(
    drawn: FieldText,
    text: Seq<char>,
    caret: FieldCaret,
    secret: bool,
)
    requires
        whole(text) <= usize::MAX,
        caret.fits(text),
        field_text_is(drawn, text, caret, secret),
    ensures
        drawn_chars(drawn) == masked(text, secret),
{
    encode_utf8_valid_utf8(text);
    is_char_boundary_start_end_of_seq(encode_utf8(text));
    let start = caret.selection.start as int;
    let end = caret.selection.end as int;
    let cursor = caret.cursor as int;
    if start != end {
        lemma_parts_join(text, 0, start, end);
        lemma_parts_join(text, 0, end, whole(text));
    } else {
        lemma_parts_join(text, 0, cursor, whole(text));
    }
    assert(encode_utf8(text).subrange(0, whole(text)) == encode_utf8(text));
    encode_utf8_decode_utf8(text);
    assert(drawn_chars(drawn) == masked(text, secret));
}

proof fn lemma_parts_join(text: Seq<char>, from: int, middle: int, to: int)
    requires
        whole(text) <= usize::MAX,
        0 <= from <= middle <= to <= whole(text),
        is_char_boundary(encode_utf8(text), from),
        is_char_boundary(encode_utf8(text), middle),
        is_char_boundary(encode_utf8(text), to),
    ensures
        part(text, from, middle) + part(text, middle, to) == part(text, from, to),
{
    let bytes = encode_utf8(text);
    encode_utf8_valid_utf8(text);
    lemma_part_is_valid(bytes, from, middle);
    lemma_part_is_valid(bytes, middle, to);
    lemma_part_is_valid(bytes, from, to);
    let a = part(text, from, middle);
    let b = part(text, middle, to);
    decode_utf8_encode_utf8(bytes.subrange(from, middle));
    decode_utf8_encode_utf8(bytes.subrange(middle, to));
    decode_utf8_encode_utf8(bytes.subrange(from, to));
    lemma_bytes_concat(a, b);
    assert(bytes.subrange(from, middle) + bytes.subrange(middle, to) == bytes.subrange(from, to));
    assert(encode_utf8(a + b) == bytes.subrange(from, to));
    encode_utf8_decode_utf8(a + b);
}

/// Draw a field's text with the caret and selection in it. No caret in the flow
/// while a range is selected: the highlight is the affordance.
pub fn render_field_text(text: &str, caret: &FieldCaret, secret: bool) -> (drawn: FieldText)
    requires
        caret.fits(text@),
    ensures
        field_text_is(drawn, text@, *caret, secret),
{
    let selection = &caret.selection;
    let cursor: usize = caret.cursor;
    let length: usize = text.as_bytes().len();
    proof {
        encode_utf8_valid_utf8(text@);
        is_char_boundary_start_end_of_seq(encode_utf8(text@));
    }
    if selection.start != selection.end {
        let before = slice(text, 0, selection.start);
        let selected = slice(text, selection.start, selection.end);
        let after = slice(text, selection.end, length);
        proof {
            encode_utf8_decode_utf8(before@);
            encode_utf8_decode_utf8(selected@);
            encode_utf8_decode_utf8(after@);
        }
        FieldText::Selected {
            before: mask(before, secret),
            selected: mask(selected, secret),
            after: mask(after, secret),
        }
    } else {
        let before = slice(text, 0, cursor);
        let after = slice(text, cursor, length);
        proof {
            encode_utf8_decode_utf8(before@);
            encode_utf8_decode_utf8(after@);
        }
        FieldText::Caret { before: mask(before, secret), after: mask(after, secret) }
    }
}

/// One field of the sheet as it is drawn.
#[derive(Debug)]
pub struct FieldRow {
    pub field: Field,
    pub label: String,
    pub focused: bool,
    pub text: FieldText,
}

pub open spec fn field_row_is(
    row: FieldRow,
    form: ConnectionForm,
    caret: FieldCaret,
    at: int,
) -> bool {
    &&& place(row.field) == at
    &&& row.label@ == field_label(row.field)
    &&& row.focused == (form.focus_place() == at)
    &&& field_text_is(row.text, form.fields@[at]@.text, caret, row.field == Field::Password)
}

/// A TLS mode on offer.
#[derive(Debug)]
pub struct TlsOffer {
    pub mode: TlsMode,
    pub label: String,
}

/// One of several that can be chosen.
#[derive(Debug)]
pub struct Choice {
    pub label: String,
    pub chosen: bool,
}

/// The sheet as it is drawn.
#[derive(Debug)]
pub struct FormView {
    pub title: String,
    pub engine_label: String,
    pub engines: Vec<Choice>,
    pub rows: Vec<FieldRow>,
    pub tls_label: String,
    pub tls_modes: Vec<Choice>,
    /// What becomes of a password.
    pub caption: String,
    pub message: Option<(String, Tone)>,
    /// What removes the connection; only there when there is one to remove.
    pub removes: Option<(ConnectionId, String)>,
    pub cancel: FormButton,
    pub test: FormButton,
    pub save: FormButton,
}

pub open spec fn choice_is(choice: Choice, label: Seq<char>, chosen: bool) -> bool {
    choice.label@ == label && choice.chosen == chosen
}

pub open spec fn form_view_is(
    view: FormView,
    form: ConnectionForm,
    carets: Seq<FieldCaret>,
    engines: Seq<Driver>,
    modes: Seq<TlsOffer>,
) -> bool {
    &&& view.title@ == (if form.edits() {
        "Edit Connection"@
    } else {
        "New Connection"@
    })
    &&& view.rows@.len() == 6
    &&& forall|i: int|
        0 <= i < 6 ==> field_row_is(#[trigger] view.rows@[i], form, carets[i], i)
    &&& view.engine_label@ == "Engine"@
    &&& view.engines@.len() == engines.len()
    &&& forall|i: int|
        0 <= i < engines.len() ==> choice_is(
            #[trigger] view.engines@[i],
            engines[i].label@,
            engines[i].kind == form.base().driver.kind,
        )
    &&& view.tls_label@ == "TLS"@
    &&& view.tls_modes@.len() == modes.len()
    &&& forall|i: int|
        0 <= i < modes.len() ==> choice_is(
            #[trigger] view.tls_modes@[i],
            modes[i].label@,
            modes[i].mode == form.base().tls,
        )
    &&& view.caption@
        == "Passwords are kept for this session only and are never written to disk."@
    &&& match (view.message, form.told()) {
        (Some((text, tone)), Some((ok, told))) => text@ == told && tone == (if ok {
            Tone::Success
        } else {
            Tone::Danger
        }),
        (None, None) => true,
        _ => false,
    }
    &&& match view.removes {
        Some((id, label)) => form.edits() && id == form.base().id && label@ == "Remove"@,
        None => !form.edits(),
    }
    &&& form_button_is(view.cancel, "Cancel"@, form.focus_place() == 6)
    &&& form_button_is(
        view.test,
        if form.testing {
            "Testing…"@
        } else {
            "Test"@
        },
        form.focus_place() == 7,
    )
    &&& form_button_is(view.save, "Save & Connect"@, form.focus_place() == 8)
}

impl ConnectionForm {
    /// What the sheet shows: the fields with their carets, and the engines and the
    /// TLS modes on offer.
    pub fn render_modal(
        &self,
        carets: &Vec<FieldCaret>,
        engines: &Vec<Driver>,
        modes: &Vec<TlsOffer>,
    ) -> (view: FormView)
        requires
            self.wf(),
            carets@.len() == 6,
            forall|i: int| 0 <= i < 6 ==> (#[trigger] carets@[i]).fits(self.fields@[i]@.text),
        ensures
            form_view_is(view, *self, carets@, engines@, modes@),
    {
        let order = Field::order();
        let mut rows: Vec<FieldRow> = Vec::new();
        let mut i: usize = 0;
        while i < 6
            invariant
                i <= 6,
                self.wf(),
                carets@.len() == 6,
                forall|k: int| 0 <= k < 6 ==> (#[trigger] carets@[k]).fits(self.fields@[k]@.text),
                rows@.len() == i,
                forall|k: int| 0 <= k < 6 ==> place(#[trigger] order@[k]) == k,
                forall|k: int|
                    0 <= k < i ==> field_row_is(#[trigger] rows@[k], *self, carets@[k], k),
            decreases 6 - i,
        {
            let field = order[i];
            assert(place(order@[i as int]) == i);
            rows.push(
                FieldRow {
                    field,
                    label: field.label().to_string(),
                    focused: self.focused == i,
                    text: render_field_text(self.fields[i].text(), &carets[i], field.is_secret()),
                },
            );
            i += 1;
        }
        let mut drivers: Vec<Choice> = Vec::new();
        let mut e: usize = 0;
        while e < engines.len()
            invariant
                e <= engines@.len(),
                drivers@.len() == e,
                forall|k: int|
                    0 <= k < e ==> choice_is(
                        #[trigger] drivers@[k],
                        engines@[k].label@,
                        engines@[k].kind == self.base().driver.kind,
                    ),
            decreases engines@.len() - e,
        {
            drivers.push(
                Choice {
                    label: engines[e].label.as_str().to_string(),
                    chosen: engines[e].kind == self.config.driver.kind,
                },
            );
            e += 1;
        }
        let mut tls_modes: Vec<Choice> = Vec::new();
        let mut m: usize = 0;
        while m < modes.len()
            invariant
                m <= modes@.len(),
                tls_modes@.len() == m,
                forall|k: int|
                    0 <= k < m ==> choice_is(
                        #[trigger] tls_modes@[k],
                        modes@[k].label@,
                        modes@[k].mode == self.base().tls,
                    ),
            decreases modes@.len() - m,
        {
            tls_modes.push(
                Choice {
                    label: modes[m].label.as_str().to_string(),
                    chosen: modes[m].mode == self.config.tls,
                },
            );
            m += 1;
        }
        let message = match &self.message {
            Some((ok, text)) => Some(
                (
                    text.as_str().to_string(),
                    if *ok {
                        Tone::Success
                    } else {
                        Tone::Danger
                    },
                ),
            ),
            None => None,
        };
        let n: usize = self.fields.len();
        FormView {
            title: if self.editing {
                "Edit Connection".to_string()
            } else {
                "New Connection".to_string()
            },
            engine_label: "Engine".to_string(),
            engines: drivers,
            rows,
            tls_label: "TLS".to_string(),
            tls_modes,
            caption: "Passwords are kept for this session only and are never written to disk.".to_string(),
            message,
            removes: if self.editing {
                Some((self.config.id, "Remove".to_string()))
            } else {
                None
            },
            cancel: FormButton { label: "Cancel".to_string(), focused: self.focused == n },
            test: FormButton {
                label: if self.testing {
                    "Testing…".to_string()
                } else {
                    "Test".to_string()
                },
                focused: self.focused == n + 1,
            },
            save: FormButton { label: "Save & Connect".to_string(), focused: self.focused == n + 2 },
        }
    }
}

/// Tab goes from each control to the next, through the fields and then the three
/// buttons, and from the last to the first; ⇧Tab goes the other way.
pub proof fn tab_goes_through_the_sheet(at: int)
    requires
        0 <= at < 9,
    ensures
        at < 8 ==> tab_step(at, false) == at + 1,
        at == 8 ==> tab_step(at, false) == 0,
        at > 0 ==> tab_step(at, true) == at - 1,
        at == 0 ==> tab_step(at, true) == 8,
{
}

/// What is saved is what was typed, without white space around it; the password is
/// kept as it was typed, and a port that is none is the engine's own. What has no
/// field stays as it was.
pub proof fn a_sheet_saves_what_was_typed(saved: ConnectionConfig, form: ConnectionForm)
    requires
        form.wf(),
        rebuilt(saved, form),
    ensures
        saved.name@ == trimmed(form.fields@[0]@.text),
        saved.host@ == trimmed(form.fields@[1]@.text),
        parsed(trimmed(form.fields@[2]@.text), 65_535) is Some ==> saved.port == parsed(
            trimmed(form.fields@[2]@.text),
            65_535,
        )->0,
        parsed(trimmed(form.fields@[2]@.text), 65_535) is None ==> saved.port
            == form.config.driver.default_port,
        saved.username@ == trimmed(form.fields@[3]@.text),
        saved.password@ == form.fields@[4]@.text,
        saved.database@ == trimmed(form.fields@[5]@.text),
        saved.id == form.config.id,
        saved.tls == form.config.tls,
        saved.environment == form.config.environment,
        saved.driver.kind == form.config.driver.kind,
{
}

/// The sheet opens with what the connection is.
pub proof fn a_sheet_opens_with_what_is_saved(config: ConnectionConfig)
    ensures
        value_of(config, Field::Name) == config.name@,
        value_of(config, Field::Host) == config.host@,
        value_of(config, Field::Port) == decimal(config.port as nat),
        value_of(config, Field::Username) == config.username@,
        value_of(config, Field::Password) == config.password@,
        value_of(config, Field::Database) == config.database@,
{
}

/// Each field has its place and its label.
pub proof fn the_fields_have_their_labels()
    ensures
        place(Field::Name) == 0 && field_label(Field::Name) == seq!['N', 'a', 'm', 'e'],
        place(Field::Host) == 1 && field_label(Field::Host) == seq!['H', 'o', 's', 't'],
        place(Field::Port) == 2 && field_label(Field::Port) == seq!['P', 'o', 'r', 't'],
        place(Field::Username) == 3 && field_label(Field::Username) == seq!['U', 's', 'e', 'r'],
        place(Field::Password) == 4 && field_label(Field::Password) == seq!['P', 'a', 's', 's', 'w', 'o', 'r', 'd'],
        place(Field::Database) == 5 && field_label(Field::Database) == seq!['D', 'a', 't', 'a', 'b', 'a', 's', 'e'],
{
    reveal_strlit("Name");
    reveal_strlit("Host");
    reveal_strlit("Port");
    reveal_strlit("User");
    reveal_strlit("Password");
    reveal_strlit("Database");
    assert("Name"@ == seq!['N', 'a', 'm', 'e']);
    assert("Host"@ == seq!['H', 'o', 's', 't']);
    assert("Port"@ == seq!['P', 'o', 'r', 't']);
    assert("User"@ == seq!['U', 's', 'e', 'r']);
    assert("Password"@ == seq!['P', 'a', 's', 's', 'w', 'o', 'r', 'd']);
    assert("Database"@ == seq!['D', 'a', 't', 'a', 'b', 'a', 's', 'e']);
}

/// Picking another engine replaces what still reads as the old engine's own, and
/// keeps what was typed.
pub proof fn a_new_engine_keeps_what_was_typed(
    input: InputView,
    old_default: Seq<char>,
    new_default: Seq<char>,
)
    ensures
        input.text == old_default ==> re_defaulted(input, old_default, new_default).text
            == new_default,
        input.text != old_default ==> re_defaulted(input, old_default, new_default) == input,
{
}

/// A secret is drawn as one bullet for each character, and anything else as it is.
pub proof fn a_secret_is_drawn_in_bullets(text: Seq<char>)
    ensures
        masked(text, false) == text,
        masked(text, true).len() == text.len(),
        forall|i: int| 0 <= i < text.len() ==> #[trigger] masked(text, true)[i] == '•',
{
}

/// The caret is drawn where it is, and the highlight over what is selected: the
/// bytes before the one and under the other are those of the text.
pub proof fn the_caret_is_drawn_where_it_is(
    drawn: FieldText,
    text: Seq<char>,
    caret: FieldCaret,
)
    requires
        whole(text) <= usize::MAX,
        caret.fits(text),
        field_text_is(drawn, text, caret, false),
    ensures
        drawn is Caret <==> caret.selection.start == caret.selection.end,
        drawn matches FieldText::Caret { before, after } ==> encode_utf8(before@) == encode_utf8(
            text,
        ).subrange(0, caret.cursor as int),
        drawn matches FieldText::Selected { before, selected, after } ==> encode_utf8(before@)
            == encode_utf8(text).subrange(0, caret.selection.start as int) && encode_utf8(
            selected@,
        ) == encode_utf8(text).subrange(
            caret.selection.start as int,
            caret.selection.end as int,
        ),
{
    let bytes = encode_utf8(text);
    let start = caret.selection.start as int;
    let end = caret.selection.end as int;
    let cursor = caret.cursor as int;
    encode_utf8_valid_utf8(text);
    is_char_boundary_start_end_of_seq(bytes);
    lemma_part_is_valid(bytes, 0, start);
    lemma_part_is_valid(bytes, start, end);
    lemma_part_is_valid(bytes, 0, cursor);
    decode_utf8_encode_utf8(bytes.subrange(0, start));
    decode_utf8_encode_utf8(bytes.subrange(start, end));
    decode_utf8_encode_utf8(bytes.subrange(0, cursor));
}

/// The sheet says whether it makes a connection or changes one, which can then be
/// removed. It shows the engine and the mode that are picked, and which control has
/// the keyboard.
pub proof fn a_sheet_is_drawn_as_it_is(
    view: FormView,
    form: ConnectionForm,
    carets: Seq<FieldCaret>,
    engines: Seq<Driver>,
    modes: Seq<TlsOffer>,
    i: int,
)
    requires
        form.wf(),
        form_view_is(view, form, carets, engines, modes),
    ensures
        view.title@ == (if form.editing {
            seq!['E', 'd', 'i', 't', ' ', 'C', 'o', 'n', 'n', 'e', 'c', 't', 'i', 'o', 'n']
        } else {
            seq!['N', 'e', 'w', ' ', 'C', 'o', 'n', 'n', 'e', 'c', 't', 'i', 'o', 'n']
        }),
        view.removes is Some <==> form.editing,
        view.removes is Some ==> (view.removes->0).0 == form.config.id,
        0 <= i < engines.len() ==> view.engines@[i].label@ == engines[i].label@ && (
        view.engines@[i].chosen <==> engines[i].kind == form.config.driver.kind),
        0 <= i < modes.len() ==> view.tls_modes@[i].label@ == modes[i].label@ && (
        view.tls_modes@[i].chosen <==> modes[i].mode == form.config.tls),
        0 <= i < 6 ==> (view.rows@[i].focused <==> form.focused == i),
        view.cancel.focused <==> form.focused == 6,
        view.test.focused <==> form.focused == 7,
        view.save.focused <==> form.focused == 8,
        view.message is Some <==> form.message is Some,
        view.message is Some ==> (view.message->0).0@ == (form.message->0).1@ && (
        view.message->0).1 == (if (form.message->0).0 {
            Tone::Success
        } else {
            Tone::Danger
        }),
{
    reveal_strlit("Edit Connection");
    reveal_strlit("New Connection");
    assert("Edit Connection"@ == seq!['E', 'd', 'i', 't', ' ', 'C', 'o', 'n', 'n', 'e', 'c', 't', 'i', 'o', 'n']);
    assert("New Connection"@ == seq!['N', 'e', 'w', ' ', 'C', 'o', 'n', 'n', 'e', 'c', 't', 'i', 'o', 'n']);
    if 0 <= i < engines.len() {
        assert(choice_is(
            view.engines@[i],
            engines[i].label@,
            engines[i].kind == form.base().driver.kind,
        ));
    }
    if 0 <= i < modes.len() {
        assert(choice_is(view.tls_modes@[i], modes[i].label@, modes[i].mode == form.base().tls));
    }
    if 0 <= i < 6 {
        assert(field_row_is(view.rows@[i], form, carets[i], i));
    }
}

} // verus!
