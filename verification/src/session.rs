//! A session with the list: the list itself, the text in the entry field, and
//! what the user is told. Each intent of the user takes the session to the
//! next one and says whether the list is to be stored.

use vstd::prelude::*;

use crate::item::{Item, ItemView};
use crate::store::{add_item, add_result, clear_checked, clear_result, delete_item,
    delete_result, load_items, load_result, toggle_checked, toggle_result, DuplicateError,
    Stored, StoredView};
use crate::text::{trim, trimmed};

verus! {

/// The state of a session.
#[derive(Debug)]
pub struct Session {
    /// The list.
    pub items: Vec<Item>,
    /// The text in the entry field.
    pub input: String,
    /// Why the last submission was refused, if it was.
    pub error: Option<DuplicateError>,
    /// Whether the entry field holds something that can be submitted.
    pub can_submit: bool,
}

/// What a [`Session`] stands for.
pub struct SessionView {
    pub items: Seq<ItemView>,
    pub input: Seq<char>,
    pub error: Option<DuplicateError>,
    pub can_submit: bool,
}

impl View for Session {
    type V = SessionView;

    open spec fn view(&self) -> SessionView {
        SessionView {
            items: self.items.deep_view(),
            input: self.input@,
            error: self.error,
            can_submit: self.can_submit,
        }
    }
}

/// What the user may do.
#[derive(Debug)]
pub enum Intent {
    /// The entry field now holds this text.
    Edit(String),
    /// The text in the entry field is submitted as a new item.
    Submit,
    /// A click on the item of this name.
    Toggle(String),
    /// The item of this name is to go.
    Delete(String),
    /// The checked items are to go.
    ClearChecked,
}

/// What an [`Intent`] stands for.
pub enum IntentView {
    Edit(Seq<char>),
    Submit,
    Toggle(Seq<char>),
    Delete(Seq<char>),
    ClearChecked,
}

impl View for Intent {
    type V = IntentView;

    open spec fn view(&self) -> IntentView {
        match self {
            Intent::Edit(text) => IntentView::Edit(text@),
            Intent::Submit => IntentView::Submit,
            Intent::Toggle(name) => IntentView::Toggle(name@),
            Intent::Delete(name) => IntentView::Delete(name@),
            Intent::ClearChecked => IntentView::ClearChecked,
        }
    }
}

/// The session after an intent, and whether its list is to be stored.
#[derive(Debug)]
pub struct Step {
    pub session: Session,
    pub persist: bool,
}

/// What a [`Step`] stands for.
pub struct StepView {
    pub session: SessionView,
    pub persist: bool,
}

impl View for Step {
    type V = StepView;

    open spec fn view(&self) -> StepView {
        StepView { session: self.session@, persist: self.persist }
    }
}

/// Whether `text` can be submitted: whether anything is left of it once it is
/// trimmed.
pub open spec fn submittable(text: Seq<char>) -> bool {
    trimmed(text).len() > 0
}

/// The session at the start, given what was found stored.
pub open spec fn start_result(stored: StoredView) -> SessionView {
    SessionView {
        items: load_result(stored),
        input: Seq::empty(),
        error: None,
        can_submit: false,
    }
}

/// What a submission makes of the session `s`. Nothing to submit changes
/// nothing but that the field is no longer submittable. A refusal is recorded and
/// leaves list and field alone. A success replaces the list, empties the field,
/// clears the record, and asks for the list to be stored.
pub open spec fn submit_result(s: SessionView) -> StepView {
    if !submittable(s.input) {
        StepView { session: SessionView { can_submit: false, ..s }, persist: false }
    } else {
        match add_result(s.items, s.input) {
            Ok(next) => StepView {
                session: SessionView {
                    items: next,
                    input: Seq::empty(),
                    error: None,
                    can_submit: false,
                },
                persist: true,
            },
            Err(e) => StepView {
                session: SessionView { error: Some(e), can_submit: false, ..s },
                persist: false,
            },
        }
    }
}

/// What `intent` makes of the session `s`.
pub open spec fn step_result(s: SessionView, intent: IntentView) -> StepView {
    match intent {
        IntentView::Edit(text) => StepView {
            session: SessionView { input: text, can_submit: submittable(text), ..s },
            persist: false,
        },
        IntentView::Submit => submit_result(s),
        IntentView::Toggle(name) => StepView {
            session: SessionView { items: toggle_result(s.items, name), ..s },
            persist: true,
        },
        IntentView::Delete(name) => StepView {
            session: SessionView { items: delete_result(s.items, name), ..s },
            persist: true,
        },
        IntentView::ClearChecked => StepView {
            session: SessionView { items: clear_result(s.items), ..s },
            persist: true,
        },
    }
}

/// Whether `text` can be submitted: whether anything is left of it once it is
/// trimmed.
pub fn can_submit(text: &str) -> (can: bool)
    ensures
        can == submittable(text@),
{
    !trim(text).is_empty()
}

impl Session {
    /// The session at the start: the stored list if one was found and could be
    /// read, else the empty list; an empty entry field; nothing to tell.
    pub fn start(stored: Stored) -> (session: Session)
        ensures
            session@ == start_result(stored@),
    {
        Session { items: load_items(stored), input: String::new(), error: None, can_submit: false }
    }

    /// Takes the session through `intent`.
    pub fn step(self, intent: Intent) -> (step: Step)
        ensures
            step@ == step_result(self@, intent@),
    {
        match intent {
            Intent::Edit(text) => {
                let can = can_submit(text.as_str());
                Step {
                    session: Session {
                        items: self.items,
                        input: text,
                        error: self.error,
                        can_submit: can,
                    },
                    persist: false,
                }
            },
            Intent::Submit => self.submit(),
            Intent::Toggle(name) => {
                let next = toggle_checked(&self.items, name.as_str());
                Step {
                    session: Session {
                        items: next,
                        input: self.input,
                        error: self.error,
                        can_submit: self.can_submit,
                    },
                    persist: true,
                }
            },
            Intent::Delete(name) => {
                let next = delete_item(&self.items, name.as_str());
                Step {
                    session: Session {
                        items: next,
                        input: self.input,
                        error: self.error,
                        can_submit: self.can_submit,
                    },
                    persist: true,
                }
            },
            Intent::ClearChecked => {
                let next = clear_checked(&self.items);
                Step {
                    session: Session {
                        items: next,
                        input: self.input,
                        error: self.error,
                        can_submit: self.can_submit,
                    },
                    persist: true,
                }
            },
        }
    }

    /// Submits the text in the entry field as a new item.
    pub fn submit(self) -> (step: Step)
        ensures
            step@ == submit_result(self@),
    {
        if !can_submit(self.input.as_str()) {
            return Step {
                session: Session {
                    items: self.items,
                    input: self.input,
                    error: self.error,
                    can_submit: false,
                },
                persist: false,
            };
        }
        match add_item(&self.items, self.input.as_str()) {
            Ok(next) => Step {
                session: Session {
                    items: next,
                    input: String::new(),
                    error: None,
                    can_submit: false,
                },
                persist: true,
            },
            Err(e) => Step {
                session: Session {
                    items: self.items,
                    input: self.input,
                    error: Some(e),
                    can_submit: false,
                },
                persist: false,
            },
        }
    }
}

} // verus!
