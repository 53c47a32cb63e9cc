//! What `add` shows before it installs.
use vstd::prelude::*;
use crate::metadata::Formula;
use crate::output::Reporter;
use crate::resolver::InstallPlan;
use crate::text::{dec_string, push_str, push_u64, to_string};

verus! {

/// The line that lists one formula of a plan: `  name version`.
pub open spec fn formula_line(f: Formula) -> Seq<char> {
    "  "@ + f.name@ + " "@ + f.versions.stable@
}

/// What a plan shows: a count, then one line per formula in install order.
pub open spec fn plan_text(plan: InstallPlan) -> Seq<Seq<char>> {
    seq!["Will install "@ + dec_string(plan.ordered@.len()) + " packages"@]
        + plan.ordered@.map_values(|f: Formula| formula_line(f))
}

/// The lines that announce a plan.
pub fn plan_lines(plan: &InstallPlan) -> (r: Vec<String>)
    ensures
        r@.map_values(|s: String| s@) == plan_text(*plan),
{
    let mut r: Vec<String> = Vec::new();
    let mut head = to_string("Will install ");
    push_u64(&mut head, plan.ordered.len() as u64);
    push_str(&mut head, " packages");
    r.push(head);
    let mut i: usize = 0;
    while i < plan.ordered.len()
        invariant
            i <= plan.ordered@.len(),
            r@.map_values(|s: String| s@) == plan_text(*plan).take(i + 1),
        decreases plan.ordered.len() - i,
    {
        let f = &plan.ordered[i];
        let mut line = to_string("  ");
        push_str(&mut line, f.name.as_str());
        push_str(&mut line, " ");
        push_str(&mut line, f.version());
        let ghost before = r@;
        r.push(line);
        assert(r@.map_values(|s: String| s@) =~= before.map_values(|s: String| s@).push(formula_line(*f)));
        assert(plan_text(*plan).take(i + 2) =~= plan_text(*plan).take(i + 1).push(formula_line(*f)));
        i = i + 1;
    }
    assert(plan_text(*plan).take(plan.ordered@.len() + 1int) =~= plan_text(*plan));
    r
}

/// Reports the plan, line by line, as status messages.
pub fn print_plan<R: Reporter + ?Sized>(plan: &InstallPlan, reporter: &R) {
    let lines = plan_lines(plan);
    let mut i: usize = 0;
    while i < lines.len()
        invariant
            i <= lines@.len(),
        decreases lines.len() - i,
    {
        reporter.status(lines[i].as_str());
        i = i + 1;
    }
}

} // verus!
