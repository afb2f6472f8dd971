//! A prompt: a line of text that is typed on the status bar, with the
//! texts that were entered before.

use crate::event_source::{pop_char, push_char, Direction, KeyCode, KeyEvent};
use vstd::prelude::*;
use vstd::string::StringExecFns;

verus! {

/// What a key did to a prompt.
#[derive(Debug, PartialEq, Eq)]
pub enum PromptAction {
    /// The prompt was opened, for the direction given where it has one.
    Start(Option<Direction>),
    /// The text is now the one given.
    Content(String),
    /// The text given was entered.
    Enter(String),
    Cancel,
}

/// A prompt.
#[derive(Debug)]
pub struct Prompt {
    pub prompt_text: Option<String>,
    pub prompt_history: Vec<String>,
    pub history_index: usize,
}

/// The texts of `history` as sequences of characters.
pub open spec fn texts(history: Seq<String>) -> Seq<Seq<char>> {
    Seq::new(history.len(), |i: int| history[i]@)
}

impl Default for Prompt {
    fn default() -> (prompt: Self)
        ensures
            prompt.wf(),
            prompt.prompt_text is None,
            prompt.history().len() == 0,
            prompt.history_index == 0,
    {
        Self::new()
    }
}

impl Prompt {
    /// The invariant of a prompt: the index into its history is at most the
    /// number of texts in it.
    pub open spec fn wf(&self) -> bool {
        self.history_index <= self.prompt_history@.len()
    }

    /// The texts entered so far.
    pub open spec fn history(&self) -> Seq<Seq<char>> {
        texts(self.prompt_history@)
    }

    /// The text of the history that the index points at; the empty text
    /// where it points behind the last.
    pub open spec fn current(&self) -> Seq<char> {
        if self.history_index < self.prompt_history@.len() {
            self.prompt_history@[self.history_index as int]@
        } else {
            Seq::empty()
        }
    }

    /// A prompt that is not open and has no history.
    pub fn new() -> (prompt: Self)
        ensures
            prompt.wf(),
            prompt.prompt_text is None,
            prompt.history().len() == 0,
            prompt.history_index == 0,
    {
        Self { prompt_text: None, prompt_history: Vec::new(), history_index: 0 }
    }

    /// Opens the prompt with an empty text, the history index behind the
    /// last text entered.
    pub fn start(&mut self)
        ensures
            final(self).wf(),
            final(self).prompt_text matches Some(text) && text@.len() == 0,
            final(self).prompt_history == old(self).prompt_history,
            final(self).history_index == old(self).prompt_history@.len(),
    {
        self.prompt_text = Some(String::new());
        self.history_index = self.prompt_history.len();
    }

    /// Closes the prompt.
    pub fn finish(&mut self)
        ensures
            final(self).prompt_text is None,
            final(self).prompt_history == old(self).prompt_history,
            final(self).history_index == old(self).history_index,
    {
        self.prompt_text = None;
    }

    pub fn is_active(&self) -> (active: bool)
        ensures
            active == self.prompt_text is Some,
    {
        self.prompt_text.is_some()
    }

    /// Puts `prompt` at the end of the history unless it is the text that
    /// was entered last.
    pub fn push_history(&mut self, prompt: &str)
        ensures
            final(self).history() == if old(self).history().len() > 0
                && old(self).history().last() == prompt@ {
                old(self).history()
            } else {
                old(self).history().push(prompt@)
            },
            final(self).prompt_text == old(self).prompt_text,
            final(self).history_index == old(self).history_index,
            old(self).wf() ==> final(self).wf(),
    {
        let entered = String::from_str(prompt);
        let length = self.prompt_history.len();
        if length > 0 && self.prompt_history[length - 1] == entered {
            assert(self.history().last() == self.prompt_history@[length - 1]@);
            return ;
        }
        assert(texts(self.prompt_history@.push(entered)) =~= self.history().push(prompt@));
        self.prompt_history.push(entered);
    }

    /// Moves the history index one text back, if there is one, and returns
    /// the text at it.
    pub fn previous_one(&mut self) -> (text: String)
        requires
            old(self).wf(),
        ensures
            final(self).wf(),
            final(self).history_index == if old(self).history_index == 0 {
                0
            } else {
                old(self).history_index - 1
            },
            final(self).prompt_history == old(self).prompt_history,
            final(self).prompt_text == old(self).prompt_text,
            text@ == final(self).current(),
    {
        self.history_index = self.history_index.saturating_sub(1);
        self.current_one()
    }

    /// Moves the history index one text forward, at most to behind the last
    /// text, and returns the text at it.
    pub fn next_one(&mut self) -> (text: String)
        requires
            old(self).wf(),
        ensures
            final(self).wf(),
            final(self).history_index == if old(self).history_index < old(self).prompt_history@.len() {
                old(self).history_index + 1
            } else {
                old(self).history_index as int
            },
            final(self).prompt_history == old(self).prompt_history,
            final(self).prompt_text == old(self).prompt_text,
            text@ == final(self).current(),
    {
        if self.history_index < self.prompt_history.len() {
            self.history_index = self.history_index + 1;
        }
        self.current_one()
    }

    /// The text of the history that the index points at; the empty text
    /// where it points behind the last.
    pub fn current_one(&self) -> (text: String)
        ensures
            text@ == self.current(),
    {
        if self.history_index < self.prompt_history.len() {
            self.prompt_history[self.history_index].clone()
        } else {
            String::new()
        }
    }

    /// The text of the prompt; the empty text where it is not open.
    pub open spec fn text(&self) -> Seq<char> {
        match self.prompt_text {
            Some(text) => text@,
            None => Seq::empty(),
        }
    }

    /// True when `after` and `action` are what the key `key` makes of this
    /// open prompt: a character is put at the end of the text and Backspace
    /// takes the last one off; Enter closes the prompt and puts the text
    /// into the history; Esc closes it; Up and Down bring the texts of the
    /// history. Keys pressed with more than Shift, and other keys, do
    /// nothing.
    pub open spec fn handles(
        &self,
        key: KeyEvent,
        after: &Prompt,
        action: Option<PromptAction>,
    ) -> bool {
        if !key.is_plain() {
            action is None && *after == *self
        } else {
            match key.code {
                KeyCode::Char(c) => {
                    &&& after.text() == self.text().push(c)
                    &&& after.prompt_text is Some
                    &&& after.prompt_history == self.prompt_history
                    &&& after.history_index == self.history_index
                    &&& action matches Some(PromptAction::Content(content))
                    &&& content@ == after.text()
                },
                KeyCode::Backspace => {
                    &&& after.text() == if self.text().len() > 0 {
                        self.text().drop_last()
                    } else {
                        self.text()
                    }
                    &&& after.prompt_text is Some
                    &&& after.prompt_history == self.prompt_history
                    &&& after.history_index == self.history_index
                    &&& action matches Some(PromptAction::Content(content))
                    &&& content@ == after.text()
                },
                KeyCode::Enter => {
                    &&& after.prompt_text is None
                    &&& after.history() == if self.history().len() > 0 && self.history().last()
                        == self.text() {
                        self.history()
                    } else {
                        self.history().push(self.text())
                    }
                    &&& after.history_index == self.history_index
                    &&& action matches Some(PromptAction::Enter(content))
                    &&& content@ == self.text()
                },
                KeyCode::Esc => {
                    &&& after.prompt_text is None
                    &&& after.prompt_history == self.prompt_history
                    &&& after.history_index == self.history_index
                    &&& action matches Some(PromptAction::Cancel)
                },
                KeyCode::Up => {
                    &&& after.history_index == if self.history_index == 0 {
                        0
                    } else {
                        self.history_index - 1
                    }
                    &&& after.prompt_history == self.prompt_history
                    &&& after.prompt_text is Some
                    &&& after.text() == after.current()
                    &&& action matches Some(PromptAction::Content(content))
                    &&& content@ == after.text()
                },
                KeyCode::Down => {
                    &&& after.history_index == if self.history_index < self.prompt_history@.len() {
                        self.history_index + 1
                    } else {
                        self.history_index as int
                    }
                    &&& after.prompt_history == self.prompt_history
                    &&& after.prompt_text is Some
                    &&& after.text() == after.current()
                    &&& action matches Some(PromptAction::Content(content))
                    &&& content@ == after.text()
                },
                _ => action is None && *after == *self,
            }
        }
    }

    /// Takes a key for the open prompt: see `handles`.
    pub fn handle_raw_event(&mut self, key: &KeyEvent) -> (action: Option<PromptAction>)
        requires
            old(self).wf(),
            old(self).prompt_text is Some,
        ensures
            final(self).wf(),
            old(self).handles(*key, final(self), action),
    {
        if !key.plain() {
            return None;
        }
        match key.code {
            KeyCode::Char(c) => {
                let mut prompt_text = self.take_text();
                push_char(&mut prompt_text, c);
                let content = prompt_text.clone();
                self.prompt_text = Some(prompt_text);
                Some(PromptAction::Content(content))
            },
            KeyCode::Backspace => {
                let mut prompt_text = self.take_text();
                pop_char(&mut prompt_text);
                let content = prompt_text.clone();
                self.prompt_text = Some(prompt_text);
                Some(PromptAction::Content(content))
            },
            KeyCode::Enter => {
                let prompt_text = self.take_text();
                self.push_history(prompt_text.as_str());
                self.finish();
                Some(PromptAction::Enter(prompt_text))
            },
            KeyCode::Esc => {
                self.finish();
                Some(PromptAction::Cancel)
            },
            KeyCode::Up => {
                let text = self.previous_one();
                let content = text.clone();
                self.prompt_text = Some(text);
                Some(PromptAction::Content(content))
            },
            KeyCode::Down => {
                let text = self.next_one();
                let content = text.clone();
                self.prompt_text = Some(text);
                Some(PromptAction::Content(content))
            },
            _ => None,
        }
    }

    /// Takes the text out of the open prompt.
    fn take_text(&mut self) -> (text: String)
        requires
            old(self).prompt_text is Some,
        ensures
            text@ == old(self).text(),
            final(self).prompt_text is None,
            final(self).prompt_history == old(self).prompt_history,
            final(self).history_index == old(self).history_index,
    {
        match self.prompt_text.take() {
            Some(text) => text,
            None => String::new(),
        }
    }
}

} // verus!
