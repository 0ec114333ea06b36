//! The event kinds a dispatcher can ask the tracer to emit, selected by a
//! numeric index.

use vstd::prelude::*;

verus! {

/// One event kind per tracer call.  The numeric selector has 14 values for
/// 13 kinds: indices 2 and 6 both map to `AddTask`.  That aliasing mirrors
/// the established selector table and is kept deliberately.
#[derive(Debug)]
pub enum InputTypes {
    PreInit,
    Init,
    AddTask,
    RegisterFunction,
    AddDependency,
    AddTaskToQueue,
    PreRunTask,
    RunTask,
    PostRunTask,
    RemoveTask,
    Barrier,
    WaitOn,
    Finish,
}

/// The selector table: which event kind each index selects, or an error for
/// an index beyond the table.
pub open spec fn event_of_index(value: u64) -> Result<InputTypes, &'static str> {
    if value == 0 {
        Ok(InputTypes::PreInit)
    } else if value == 1 {
        Ok(InputTypes::Init)
    } else if value == 2 {
        Ok(InputTypes::AddTask)
    } else if value == 3 {
        Ok(InputTypes::RegisterFunction)
    } else if value == 4 {
        Ok(InputTypes::AddDependency)
    } else if value == 5 {
        Ok(InputTypes::AddTaskToQueue)
    } else if value == 6 {
        Ok(InputTypes::AddTask)
    } else if value == 7 {
        Ok(InputTypes::PreRunTask)
    } else if value == 8 {
        Ok(InputTypes::RunTask)
    } else if value == 9 {
        Ok(InputTypes::PostRunTask)
    } else if value == 10 {
        Ok(InputTypes::RemoveTask)
    } else if value == 11 {
        Ok(InputTypes::Barrier)
    } else if value == 12 {
        Ok(InputTypes::WaitOn)
    } else if value == 13 {
        Ok(InputTypes::Finish)
    } else {
        Err("Invalid index")
    }
}

impl TryFrom<u64> for InputTypes {
    type Error = &'static str;

    fn try_from(value: u64) -> (r: Result<InputTypes, &'static str>) {
        match value {
            0 => Ok(InputTypes::PreInit),
            1 => Ok(InputTypes::Init),
            2 => Ok(InputTypes::AddTask),
            3 => Ok(InputTypes::RegisterFunction),
            4 => Ok(InputTypes::AddDependency),
            5 => Ok(InputTypes::AddTaskToQueue),
            6 => Ok(InputTypes::AddTask),
            7 => Ok(InputTypes::PreRunTask),
            8 => Ok(InputTypes::RunTask),
            9 => Ok(InputTypes::PostRunTask),
            10 => Ok(InputTypes::RemoveTask),
            11 => Ok(InputTypes::Barrier),
            12 => Ok(InputTypes::WaitOn),
            13 => Ok(InputTypes::Finish),
            _ => Err("Invalid index"),
        }
    }
}

impl vstd::std_specs::convert::TryFromSpecImpl<u64> for InputTypes {
    open spec fn obeys_try_from_spec() -> bool {
        true
    }

    open spec fn try_from_spec(value: u64) -> Result<InputTypes, &'static str> {
        event_of_index(value)
    }
}

} // verus!
