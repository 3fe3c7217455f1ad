use futures::task::Task;
use vstd::prelude::*;

verus! {

/// The handle of a task of the crate `futures`: the resumption token that
/// its executors hand out.
#[verifier::external_type_specification]
#[verifier::external_body]
pub struct ExTask(Task);

/// Tells the executor, with `Task::notify`, that the task is to be polled
/// again. The call gives no result, and nothing is claimed of what the
/// executor does with it.
#[verifier::external_body]
fn notify(task: &Task) {
    task.notify()
}

/// Resumes the tasks that an operation handed back, first to last.
pub fn notify_all(tasks: Vec<Task>) {
    let n = tasks.len();
    let mut i: usize = 0;
    while i < n
        invariant
            i <= n,
            n == tasks@.len(),
        decreases n - i,
    {
        notify(&tasks[i]);
        i += 1;
    }
}

} // verus!
