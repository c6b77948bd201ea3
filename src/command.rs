use vstd::prelude::*;

verus! {

/// A subcommand of the command line, with its arguments.
#[derive(Clone, Debug, PartialEq, Eq)]
pub enum Command {
    /// Add one or more tasks; with no text given, one is asked for in an editor.
    Add { todos: Vec<String> },
    /// Remove the tasks the user selects.
    Rm,
    /// Give the task the user selects a new text.
    Edit,
    /// Flip whether each task the user selects is done.
    Toggle,
    /// Show the tasks, or only those not yet done.
    List { incomplete: bool },
    /// Remove every task that is done.
    Clean,
}

/// The parsed command line: at most one subcommand.
#[derive(Clone, Debug, PartialEq, Eq)]
pub struct Args {
    pub command: Option<Command>,
}

/// The store operation that a selection of several tasks feeds.
#[derive(Clone, Copy, Debug, PartialEq, Eq)]
pub enum Batch {
    Remove,
    Toggle,
}

/// What one invocation has to do, and what it must first ask the user for.
#[derive(Clone, Debug, PartialEq, Eq)]
pub enum Request {
    /// Add these texts, in the order given.
    Add(Vec<String>),
    /// Ask for one text in an editor, then add it.
    AddFromEditor,
    /// Let the user select tasks from the full listing, then apply the operation to them.
    PickMany(Batch),
    /// Let the user select one task from the full listing, ask for its new text, then edit it.
    PickOneToEdit,
    /// Show the tasks: only those not yet done when the flag is set.
    Show(bool),
    /// Drop every task that is done.
    RemoveCompleted,
    /// There is nothing to do.
    Nothing,
}

/// Decides what the parsed command line asks for.
pub fn plan(args: Args) -> (r: Request)
    ensures
        match args.command {
            None => r == Request::Nothing,
            Some(Command::Add { todos }) => if todos@.len() == 0 {
                r == Request::AddFromEditor
            } else {
                r == Request::Add(todos)
            },
            Some(Command::Rm) => r == Request::PickMany(Batch::Remove),
            Some(Command::Edit) => r == Request::PickOneToEdit,
            Some(Command::Toggle) => r == Request::PickMany(Batch::Toggle),
            Some(Command::List { incomplete }) => r == Request::Show(incomplete),
            Some(Command::Clean) => r == Request::RemoveCompleted,
        },
{
    match args.command {
        None => Request::Nothing,
        Some(Command::Add { todos }) => {
            if todos.len() == 0 {
                Request::AddFromEditor
            } else {
                Request::Add(todos)
            }
        },
        Some(Command::Rm) => Request::PickMany(Batch::Remove),
        Some(Command::Edit) => Request::PickOneToEdit,
        Some(Command::Toggle) => Request::PickMany(Batch::Toggle),
        Some(Command::List { incomplete }) => Request::Show(incomplete),
        Some(Command::Clean) => Request::RemoveCompleted,
    }
}

} // verus!
