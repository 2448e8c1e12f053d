use vstd::prelude::*;

verus! {

/// Where a pipeline stage's standard input comes from.
#[derive(Clone, Copy, PartialEq, Eq, Debug, Structural)]
pub enum StageInput {
    /// The shell's own standard input.
    Inherit,
    /// The bytes the previous stage (a builtin) wrote, fed through a pipe.
    Buffer,
    /// The output pipe of the previous stage's process.
    PreviousProcess,
}

/// Where a pipeline stage's standard output goes.
#[derive(Clone, Copy, PartialEq, Eq, Debug, Structural)]
pub enum StageOutput {
    /// The shell's own standard output.
    Terminal,
    /// An in-memory buffer (a builtin that is not the last stage).
    Capture,
    /// A pipe that the next stage reads (a program that is not the last stage).
    Pipe,
}

/// What the stages so far leave for the next one to read.
#[derive(Clone, Copy, PartialEq, Eq, Debug, Structural)]
pub enum PipeSource {
    Nothing,
    Buffer,
    Process,
}

/// How one stage of a pipeline is wired.
#[derive(Clone, Copy, PartialEq, Eq, Debug, Structural)]
pub struct StagePlan {
    pub input: StageInput,
    pub output: StageOutput,
}

/// The wiring of stage `i` of a pipeline whose stages are builtins where
/// `builtin` is true. A builtin reads nothing from the pipeline; a program
/// reads what the stage before it wrote. Every stage but the last writes
/// into the pipeline; the last writes to the terminal.
pub open spec fn stage_plan_spec(builtin: Seq<bool>, i: int) -> StagePlan {
    StagePlan {
        input: if builtin[i] || i == 0 {
            StageInput::Inherit
        } else if builtin[i - 1] {
            StageInput::Buffer
        } else {
            StageInput::PreviousProcess
        },
        output: if i == builtin.len() - 1 {
            StageOutput::Terminal
        } else if builtin[i] {
            StageOutput::Capture
        } else {
            StageOutput::Pipe
        },
    }
}

/// The next stage's wiring and what it leaves behind, given what the
/// stages before it left.
pub open spec fn step_spec(previous: PipeSource, is_builtin: bool, is_last: bool) -> (StagePlan, PipeSource) {
    if is_builtin {
        if is_last {
            (StagePlan { input: StageInput::Inherit, output: StageOutput::Terminal }, PipeSource::Nothing)
        } else {
            (StagePlan { input: StageInput::Inherit, output: StageOutput::Capture }, PipeSource::Buffer)
        }
    } else {
        let input = match previous {
            PipeSource::Nothing => StageInput::Inherit,
            PipeSource::Buffer => StageInput::Buffer,
            PipeSource::Process => StageInput::PreviousProcess,
        };
        if is_last {
            (StagePlan { input, output: StageOutput::Terminal }, previous)
        } else {
            (StagePlan { input, output: StageOutput::Pipe }, PipeSource::Process)
        }
    }
}

/// Wires the next stage of a pipeline: `previous` is what the stages before
/// it left to read. Returns the stage's wiring and what it leaves.
pub fn plan_stage(previous: PipeSource, is_builtin: bool, is_last: bool) -> (r: (StagePlan, PipeSource))
    ensures
        r == step_spec(previous, is_builtin, is_last),
{
    if is_builtin {
        if is_last {
            (StagePlan { input: StageInput::Inherit, output: StageOutput::Terminal }, PipeSource::Nothing)
        } else {
            (StagePlan { input: StageInput::Inherit, output: StageOutput::Capture }, PipeSource::Buffer)
        }
    } else {
        let input = match previous {
            PipeSource::Nothing => StageInput::Inherit,
            PipeSource::Buffer => StageInput::Buffer,
            PipeSource::Process => StageInput::PreviousProcess,
        };
        if is_last {
            (StagePlan { input, output: StageOutput::Terminal }, previous)
        } else {
            (StagePlan { input, output: StageOutput::Pipe }, PipeSource::Process)
        }
    }
}

/// The wiring of every stage of a pipeline; `builtin[i]` tells whether stage
/// `i` is a builtin.
pub fn plan_pipeline(builtin: &Vec<bool>) -> (plans: Vec<StagePlan>)
    ensures
        plans.len() == builtin.len(),
        forall|i: int| 0 <= i < builtin.len() ==> #[trigger] plans@[i] == stage_plan_spec(builtin@, i),
{
    let n = builtin.len();
    let mut plans: Vec<StagePlan> = Vec::new();
    let mut previous = PipeSource::Nothing;
    let mut i: usize = 0;
    while i < n
        invariant
            n == builtin.len(),
            i <= n,
            plans.len() == i,
            forall|k: int| 0 <= k < i ==> #[trigger] plans@[k] == stage_plan_spec(builtin@, k),
            i == 0 ==> previous == PipeSource::Nothing,
            0 < i < n ==> previous == (if builtin@[i - 1] {
                PipeSource::Buffer
            } else {
                PipeSource::Process
            }),
        decreases n - i,
    {
        let (plan, next) = plan_stage(previous, builtin[i], i + 1 == n);
        plans.push(plan);
        previous = next;
        i = i + 1;
    }
    plans
}

/// Only the last stage of a pipeline writes to the terminal, and every
/// program after the first stage reads exactly what the stage before it
/// wrote: a builtin's captured bytes or a program's pipe.
pub proof fn lemma_pipeline_connects(builtin: Seq<bool>, i: int)
    requires
        0 <= i < builtin.len(),
    ensures
        (stage_plan_spec(builtin, i).output == StageOutput::Terminal) <==> i == builtin.len() - 1,
        i > 0 && !builtin[i] ==> match stage_plan_spec(builtin, i).input {
            StageInput::Buffer => stage_plan_spec(builtin, i - 1).output == StageOutput::Capture,
            StageInput::PreviousProcess => stage_plan_spec(builtin, i - 1).output == StageOutput::Pipe,
            StageInput::Inherit => false,
        },
        builtin[i] ==> stage_plan_spec(builtin, i).input == StageInput::Inherit,
{
}

} // verus!
