//! A one-field text input, as far as the surfaces read it: what it holds, and
//! what of it is selected.
use std::ops::Range;
use vstd::prelude::*;
use vstd::string::*;
use vstd::utf8::encode_utf8;

verus! {

#[derive(Debug)]
pub struct TextInput {
    pub text: String,
    /// Takes more than one line.
    pub multiline: bool,
    /// What is selected, by its bytes.
    pub selection: Option<Range<usize>>,
}

/// What an input holds, and how.
pub struct InputView {
    pub text: Seq<char>,
    pub multiline: bool,
    pub selection: Option<Range<usize>>,
}

impl View for TextInput {
    type V = InputView;

    open spec fn view(&self) -> InputView {
        InputView { text: self.text@, multiline: self.multiline, selection: self.selection }
    }
}

/// An input that holds a text on one line, with nothing selected.
pub open spec fn line_input(text: Seq<char>) -> InputView {
    InputView { text, multiline: false, selection: None }
}

impl InputView {
    /// The same input with all of its text selected.
    pub open spec fn all_selected(self) -> InputView {
        InputView {
            selection: Some(Range { start: 0, end: encode_utf8(self.text).len() as usize }),
            ..self
        }
    }
}

impl TextInput {
    pub fn new(multiline: bool) -> (input: Self)
        ensures
            input@ == (InputView { text: Seq::empty(), multiline, selection: None }),
    {
        let text: String = String::new();
        assert(text@ == Seq::<char>::empty());
        TextInput { text, multiline, selection: None }
    }

    pub fn with_text(text: String, multiline: bool) -> (input: Self)
        ensures
            input@ == (InputView { text: text@, multiline, selection: None }),
    {
        TextInput { text, multiline, selection: None }
    }

    pub fn text(&self) -> (text: &str)
        ensures
            text@ == self@.text,
    {
        self.text.as_str()
    }

    /// Other text in the same input, with nothing selected.
    pub fn set_text(&mut self, text: &str)
        ensures
            final(self)@ == (InputView { text: text@, selection: None, ..old(self)@ }),
    {
        self.text = text.to_string();
        self.selection = None;
    }

    /// Selects all of the text, so that typing replaces it.
    pub fn select_all(&mut self)
        ensures
            final(self)@ == old(self)@.all_selected(),
    {
        let end: usize = self.text.as_str().as_bytes().len();
        self.selection = Some(Range { start: 0, end });
    }

    pub fn is_empty(&self) -> (empty: bool)
        ensures
            empty == (self@.text.len() == 0),
    {
        self.text.as_str().is_empty()
    }
}

/// A line to type into starts with its text and nothing selected; selecting all of
/// it selects from its first byte to its last, and leaves the text.
pub proof fn selecting_all_keeps_the_text(text: Seq<char>, input: InputView)
    requires
        encode_utf8(input.text).len() <= usize::MAX,
    ensures
        line_input(text).text == text,
        !line_input(text).multiline,
        line_input(text).selection is None,
        input.all_selected().text == input.text,
        input.all_selected().multiline == input.multiline,
        input.all_selected().selection is Some,
        (input.all_selected().selection->0).start == 0,
        (input.all_selected().selection->0).end == encode_utf8(input.text).len(),
{
}

} // verus!
