//! What is to be done next with the database: commands to run, and a question to ask.

use crate::command::{Command, CommandModel};
use crate::records::command_models;
use vstd::prelude::*;

verus! {

/// Commands to run in order, and a question to ask after them. Without a question all is done.
#[derive(Debug)]
pub struct Step {
    pub run: Vec<Command>,
    pub ask: Option<Command>,
}

/// The content of a [`Step`].
pub ghost struct StepModel {
    pub run: Seq<CommandModel>,
    pub ask: Option<CommandModel>,
}

impl View for Step {
    type V = StepModel;

    open spec fn view(&self) -> StepModel {
        StepModel {
            run: command_models(self.run@),
            ask: match self.ask {
                Some(command) => Some(command@),
                None => None,
            },
        }
    }
}

/// A step that only asks.
pub open spec fn asking(command: CommandModel) -> StepModel {
    StepModel { run: Seq::empty(), ask: Some(command) }
}

/// A step that only asks.
pub fn ask_only(command: Command) -> (r: Step)
    ensures
        r@ == asking(command@),
{
    let step: Step = Step { run: Vec::new(), ask: Some(command) };
    assert(step@.run =~= Seq::empty());
    step
}

/// Appends commands to others.
pub fn add_all(commands: &mut Vec<Command>, more: Vec<Command>)
    ensures
        command_models(final(commands)@) == command_models(old(commands)@) + command_models(more@),
{
    let ghost before = commands@;
    let ghost after = more@;
    let mut rest: Vec<Command> = more;
    commands.append(&mut rest);
    assert(command_models(commands@) =~= command_models(before) + command_models(after));
}

} // verus!
