//! A single to-do item: a name, a description, and a completion flag.

use vstd::prelude::*;
use vstd::string::StringExecFns;

verus! {

/// The mathematical value of a `Task`: its two texts and its flag.
#[verifier::ext_equal]
pub ghost struct TaskView {
    pub name: Seq<char>,
    pub description: Seq<char>,
    pub completed: bool,
}

/// A named, describable, completable to-do item.
#[derive(Debug)]
pub struct Task {
    pub name: String,
    pub description: String,
    is_completed: bool,
}

impl View for Task {
    type V = TaskView;

    closed spec fn view(&self) -> TaskView {
        TaskView { name: self.name@, description: self.description@, completed: self.is_completed }
    }
}

/// The one-character completion marker used in listings.
pub open spec fn symbol_text(completed: bool) -> Seq<char> {
    if completed {
        "✓"@
    } else {
        "✗"@
    }
}

/// The one-line rendering of a task: its name and its completion marker.
pub open spec fn short_text(t: TaskView) -> Seq<char> {
    t.name + " - "@ + symbol_text(t.completed)
}

/// The multi-line rendering of a task.
pub open spec fn long_text(t: TaskView) -> Seq<char> {
    "Task Name   : "@ + t.name + "\nDescription : "@ + t.description + "\nCompleted   : "@
        + symbol_text(t.completed) + "\n"@
}

impl Task {
    /// Creates a task that is not yet completed.
    pub fn new(name: String, description: String) -> (t: Task)
        ensures
            t@ == (TaskView { name: name@, description: description@, completed: false }),
    {
        Task { name, description, is_completed: false }
    }

    /// Flips the completion flag; the texts are untouched.
    pub fn toggle_completed(&mut self)
        ensures
            final(self)@ == (TaskView { completed: !old(self)@.completed, ..old(self)@ }),
    {
        self.is_completed = !self.is_completed;
    }

    /// The name text.
    pub fn name_str(&self) -> (r: &str)
        ensures
            r@ == self@.name,
    {
        self.name.as_str()
    }

    /// The description text.
    pub fn description_str(&self) -> (r: &str)
        ensures
            r@ == self@.description,
    {
        self.description.as_str()
    }

    /// The current completion flag.
    pub fn get_is_completed(&self) -> (r: bool)
        ensures
            r == self@.completed,
    {
        self.is_completed
    }

    /// The glyph that stands for the completion flag in listings.
    fn completed_symbol(&self) -> (r: String)
        ensures
            r@ == symbol_text(self@.completed),
    {
        if self.is_completed {
            String::from_str("✓")
        } else {
            String::from_str("✗")
        }
    }

    /// The one-line text of the task: see `short_text`.
    pub fn to_string_short(&self) -> (r: String)
        ensures
            r@ == short_text(self@),
    {
        let mut r = self.name.clone();
        r.append(" - ");
        let sym = self.completed_symbol();
        r.append(sym.as_str());
        r
    }

    /// The multi-line text of the task: see `long_text`.
    pub fn to_string_long(&self) -> (r: String)
        ensures
            r@ == long_text(self@),
    {
        let mut r = String::from_str("Task Name   : ");
        r.append(self.name.as_str());
        r.append("\nDescription : ");
        r.append(self.description.as_str());
        r.append("\nCompleted   : ");
        let sym = self.completed_symbol();
        r.append(sym.as_str());
        r.append("\n");
        r
    }
}

} // verus!
