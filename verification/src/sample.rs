//! The sample configuration file that the supervisor can write for a user
//! to start from.
use vstd::prelude::*;

verus! {

/// The sample configuration before its uid.
pub open spec fn sample_head() -> Seq<char> {
    r#"
# This is a simple process configuration file for procman
# It contains a single process with a simple command
uid = ""#@
}

/// The sample configuration after its uid.
pub open spec fn sample_tail() -> Seq<char> {
    r#""
file-format = "0"

[[process]]
id = "example_process"
apply-on = "2025-05-12T21:00:00"
command = "sleep 5555"

#optionals  -----------------------------------------
fake = false
depends-on = []
work-dir = "/tmp"
before = "echo 'Preparing to start process...'"
init = "echo 'Process is starting...'"
stop = "echo 'Stopping process...'"

[process.schedule]
start-time = "00:00:00"
stop-time = "23:59:00"
week-days = ["mon", "wed", "thu", "sun"]



# ---


[[process]]
id = "example_process 2"
apply-on = "2023-10-01T12:00:00"
command = "echo 'Hello, World!'"


"#@
}

/// The text of a sample configuration file with the given uid: one example
/// process with every optional field, and a second minimal one.
pub fn sample_config(uid: &str) -> (r: String)
    ensures
        r@ == sample_head() + uid@ + sample_tail(),
{
    let mut out = String::from_str(r#"
# This is a simple process configuration file for procman
# It contains a single process with a simple command
uid = ""#);
    out.append(uid);
    out.append(r#""
file-format = "0"

[[process]]
id = "example_process"
apply-on = "2025-05-12T21:00:00"
command = "sleep 5555"

#optionals  -----------------------------------------
fake = false
depends-on = []
work-dir = "/tmp"
before = "echo 'Preparing to start process...'"
init = "echo 'Process is starting...'"
stop = "echo 'Stopping process...'"

[process.schedule]
start-time = "00:00:00"
stop-time = "23:59:00"
week-days = ["mon", "wed", "thu", "sun"]



# ---


[[process]]
id = "example_process 2"
apply-on = "2023-10-01T12:00:00"
command = "echo 'Hello, World!'"


"#);
    out
}

} // verus!
