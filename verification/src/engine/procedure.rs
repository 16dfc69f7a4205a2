//! Running steps one after the other, until one fails or all are done.

use crate::command::{Call, Invocation};
use crate::engine::steps::{
    closing, opening, reaction, tasks, Answer, Question, Request, Step, Task,
};
use crate::error::{fault, outcome, Error};
use vstd::prelude::*;

verus! {

/// A list of steps that is being run.
#[derive(Debug)]
pub struct Procedure {
    pub steps: Vec<Step>,
    /// How many steps are done.
    pub done: usize,
    /// The further command of the step that is being run, once its first question was answered.
    pub further: Option<Invocation>,
    /// Why the procedure stopped, if it did.
    pub failure: Option<Error>,
}

/// A list of steps that is being run, as a value.
pub struct Run {
    pub tasks: Seq<Task>,
    pub done: nat,
    pub further: Option<Call>,
    pub failure: Option<Seq<char>>,
}

impl View for Procedure {
    type V = Run;

    open spec fn view(&self) -> Run {
        Run {
            tasks: tasks(self.steps@),
            done: self.done as nat,
            further: match self.further {
                Some(invocation) => Some(invocation@),
                None => None,
            },
            failure: fault(self.failure),
        }
    }
}

/// What a procedure waits for.
#[derive(Debug)]
pub enum Status {
    /// An answer to a question.
    Waiting(Question),
    /// Nothing: it is over.
    Over(Result<(), Error>),
}

/// What a procedure waits for, as a value.
pub enum Standing {
    Waiting(Request),
    Over(Result<(), Seq<char>>),
}

impl View for Status {
    type V = Standing;

    open spec fn view(&self) -> Standing {
        match self {
            Status::Waiting(question) => Standing::Waiting(question@),
            Status::Over(result) => Standing::Over(outcome(*result)),
        }
    }
}

/// A procedure before its first step.
pub open spec fn fresh(tasks: Seq<Task>) -> Run {
    Run { tasks, done: 0, further: None, failure: None }
}

/// What a procedure waits for.
pub open spec fn standing(run: Run) -> Standing {
    if let Some(message) = run.failure {
        Standing::Over(Err(message))
    } else if run.done >= run.tasks.len() {
        Standing::Over(Ok(()))
    } else if let Some(call) = run.further {
        Standing::Waiting(Request::Run(call))
    } else {
        match opening(run.tasks[run.done as int]) {
            Ok(request) => Standing::Waiting(request),
            Err(message) => Standing::Over(Err(message)),
        }
    }
}

/// Whether an answer is one to what the procedure waits for.
pub open spec fn answers(run: Run, answer: Answer) -> bool {
    standing(run) matches Standing::Waiting(request) && (request is Exists) == (answer is Exists)
}

/// A procedure after an answer.
pub open spec fn continued(run: Run, answer: Answer) -> Run {
    let task = run.tasks[run.done as int];
    if run.further is Some {
        match answer {
            Answer::Missing(error) => Run { failure: Some(error@), ..run },
            Answer::Ran(ran) => match closing(task, outcome(ran)) {
                Ok(()) => Run { done: run.done + 1, further: None, ..run },
                Err(message) => Run { failure: Some(message), ..run },
            },
            Answer::Exists(_) => run,
        }
    } else {
        match reaction(task, answer) {
            Ok(Some(call)) => Run { further: Some(call), ..run },
            Ok(None) => Run { done: run.done + 1, ..run },
            Err(message) => Run { failure: Some(message), ..run },
        }
    }
}

impl Procedure {
    pub fn new(steps: Vec<Step>) -> (result: Self)
        ensures
            result@ == fresh(tasks(steps@)),
    {
        Procedure { steps, done: 0, further: None, failure: None }
    }

    /// What the procedure waits for.
    pub fn status(&self) -> (result: Status)
        ensures
            result@ == standing(self@),
    {
        if let Some(error) = &self.failure {
            return Status::Over(Err(Error { message: error.message.clone() }));
        }
        assert(tasks(self.steps@).len() == self.steps@.len());
        if self.done >= self.steps.len() {
            return Status::Over(Ok(()));
        }
        if let Some(invocation) = &self.further {
            let copy = Invocation {
                program: invocation.program.clone(),
                arguments: crate::model::copy_strings(&invocation.arguments),
            };
            return Status::Waiting(Question::Run(copy));
        }
        assert(tasks(self.steps@)[self.done as int] == self.steps@[self.done as int]@);
        match self.steps[self.done].begin() {
            Ok(question) => Status::Waiting(question),
            Err(error) => Status::Over(Err(error)),
        }
    }

    /// Takes an answer to what the procedure waits for.
    pub fn advance(&mut self, answer: Answer)
        requires
            answers(old(self)@, answer),
        ensures
            final(self)@ == continued(old(self)@, answer),
    {
        assert(tasks(self.steps@).len() == self.steps@.len());
        let index: usize = self.done;
        assert(index < self.steps.len());
        assert(tasks(self.steps@)[index as int] == self.steps@[index as int]@);
        if self.further.is_some() {
            match answer {
                Answer::Missing(error) => {
                    self.failure = Some(error);
                },
                Answer::Ran(ran) => match self.steps[index].finish(ran) {
                    Ok(()) => {
                        self.done = index + 1;
                        self.further = None;
                    },
                    Err(error) => {
                        self.failure = Some(error);
                    },
                },
                Answer::Exists(_) => {},
            }
        } else {
            match self.steps[index].proceed(answer) {
                Ok(Some(invocation)) => {
                    self.further = Some(invocation);
                },
                Ok(None) => {
                    self.done = index + 1;
                },
                Err(error) => {
                    self.failure = Some(error);
                },
            }
        }
    }
}

/// How far a procedure is from its end.
pub open spec fn distance(run: Run) -> int {
    if run.failure is Some {
        0
    } else {
        2 * (run.tasks.len() - run.done) - if run.further is Some {
            1int
        } else {
            0int
        }
    }
}

/// Every answer brings a procedure closer to its end, so that it ends after at most two answers for
/// each step.
pub proof fn procedures_end(run: Run, answer: Answer)
    requires
        answers(run, answer),
        run.done <= run.tasks.len(),
    ensures
        0 <= distance(continued(run, answer)) < distance(run),
        continued(run, answer).done <= run.tasks.len(),
        continued(run, answer).tasks == run.tasks,
{
}

/// A procedure ends well exactly where it got through all its steps: an answer that fails a step
/// ends it there, and no later step is begun.
pub proof fn failures_stop_procedures(run: Run, answer: Answer)
    requires
        answers(run, answer),
    ensures
        continued(run, answer).failure is Some ==> {
            &&& standing(continued(run, answer)) is Over
            &&& standing(continued(run, answer))->Over_0 is Err
            &&& continued(run, answer).done == run.done
        },
        standing(run) == Standing::Over(Ok::<(), Seq<char>>(())) <==> run.failure is None
            && run.done >= run.tasks.len(),
{
}

} // verus!
