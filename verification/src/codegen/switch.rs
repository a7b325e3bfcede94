//! What generating a `switch` statement needs to know before it emits anything: which statements
//! of each case are generated, where each case continues, which value jumps to which case, and
//! which case takes the other values.
use vstd::prelude::*;

use crate::ast::{Case, Statement};
use crate::ast_store::{ASTStore, StatementID};
use crate::span::SourceIDSpanned;

verus! {

/// How one case is generated.
pub struct CasePlan {
    /// The statements that are generated: those before the case's first `break`.
    pub statements: Vec<StatementID>,
    /// The case whose block the case falls through to, or `None` for the block after the switch
    /// (after a `break`, or at the last case).
    pub next: Option<usize>,
}

/// How a `switch` statement is generated. Case `i` gets block `i`.
pub struct SwitchPlan {
    pub cases: Vec<CasePlan>,
    /// The matched values with the index of their case, in the order of the cases.
    pub table: Vec<(String, usize)>,
    /// The default case, or `None` when other values go to the block after the switch.
    pub default_case: Option<usize>,
}

/// Whether statement `id` of the store is a `break`.
pub open spec fn is_break(store: ASTStore, id: StatementID) -> bool {
    store.statements@[id as int].inner is Break
}

/// The index of the first `break` in `body` at or after `k`, or the length of `body`.
pub open spec fn first_break(store: ASTStore, body: Seq<StatementID>, k: int) -> int
    decreases body.len() - k,
{
    if k < 0 || k >= body.len() {
        body.len() as int
    } else if is_break(store, body[k]) {
        k
    } else {
        first_break(store, body, k + 1)
    }
}

/// The statements of `body` before its first `break`.
pub open spec fn before_break(store: ASTStore, body: Seq<StatementID>) -> Seq<StatementID> {
    body.subrange(0, first_break(store, body, 0))
}

/// Where case `i` of `cases` continues: after the switch when its body has a `break` or it is
/// the last case, else the next case.
pub open spec fn spec_next(store: ASTStore, cases: Seq<SourceIDSpanned<Case>>, i: int) -> Option<usize> {
    if first_break(store, cases[i].inner.body@, 0) < cases[i].inner.body@.len() || i + 1 >= cases.len() {
        None
    } else {
        Some((i + 1) as usize)
    }
}

/// The matched values of `cases` with the index of their case, in order.
pub open spec fn spec_table(cases: Seq<SourceIDSpanned<Case>>) -> Seq<(Seq<char>, usize)>
    decreases cases.len(),
{
    if cases.len() == 0 {
        seq![]
    } else {
        let rest = spec_table(cases.drop_last());
        match cases.last().inner.matched_value {
            Some(v) => rest.push((v.inner@, (cases.len() - 1) as usize)),
            None => rest,
        }
    }
}

/// The index of the last default case of `cases`, if there is one.
pub open spec fn spec_default(cases: Seq<SourceIDSpanned<Case>>) -> Option<usize>
    decreases cases.len(),
{
    if cases.len() == 0 {
        None
    } else if cases.last().inner.matched_value is None {
        Some((cases.len() - 1) as usize)
    } else {
        spec_default(cases.drop_last())
    }
}

/// A switch has at most one default case.
pub open spec fn at_most_one_default(cases: Seq<SourceIDSpanned<Case>>) -> bool {
    forall|i: int, j: int| 0 <= i < j < cases.len() ==> !(#[trigger] cases[i].inner.matched_value is None
        && #[trigger] cases[j].inner.matched_value is None)
}

/// Every statement of every case is in the store.
pub open spec fn cases_in_store(store: ASTStore, cases: Seq<SourceIDSpanned<Case>>) -> bool {
    forall|i: int, k: int| 0 <= i < cases.len() && 0 <= k < cases[i].inner.body@.len()
        ==> #[trigger] cases[i].inner.body@[k] < store.statements@.len()
}

/// The plan of a case.
fn plan_case(store: &ASTStore, cases: &Vec<SourceIDSpanned<Case>>, i: usize) -> (plan: CasePlan)
    requires
        i < cases@.len(),
        cases_in_store(*store, cases@),
    ensures
        plan.statements@ == before_break(*store, cases@[i as int].inner.body@),
        plan.next == spec_next(*store, cases@, i as int),
{
    let body = &cases[i].inner.body;
    let ghost b = body@;
    let mut statements: Vec<StatementID> = Vec::new();
    let mut k: usize = 0;
    while k < body.len()
        invariant
            b == body@,
            b == cases@[i as int].inner.body@,
            i < cases@.len(),
            cases_in_store(*store, cases@),
            k <= b.len(),
            first_break(*store, b, 0) == first_break(*store, b, k as int),
            statements@ == b.subrange(0, k as int),
        decreases b.len() - k,
    {
        assert(b[k as int] < store.statements@.len());
        if let Statement::Break = store.get_statement(body[k]).inner {
            return CasePlan { statements, next: None };
        }
        statements.push(body[k]);
        k = k + 1;
        assert(statements@ =~= b.subrange(0, k as int));
    }
    let next = if i < cases.len() - 1 { Some(i + 1) } else { None };
    CasePlan { statements, next }
}

/// Plans a `switch` statement over `cases`, whose statements are in `store`.
pub fn plan_switch(store: &ASTStore, cases: &Vec<SourceIDSpanned<Case>>) -> (plan: SwitchPlan)
    requires
        cases_in_store(*store, cases@),
        at_most_one_default(cases@),
    ensures
        plan.cases@.len() == cases@.len(),
        forall|i: int| 0 <= i < cases@.len() ==> (#[trigger] plan.cases@[i]).statements@
            == before_break(*store, cases@[i].inner.body@),
        forall|i: int| 0 <= i < cases@.len() ==> (#[trigger] plan.cases@[i]).next == spec_next(*store, cases@, i),
        plan.table@.map_values(|entry: (String, usize)| (entry.0@, entry.1)) == spec_table(cases@),
        plan.default_case == spec_default(cases@),
        plan.default_case matches Some(d) ==> d < cases@.len() && cases@[d as int].inner.matched_value is None,
        plan.default_case is None ==> forall|i: int| 0 <= i < cases@.len() ==> (#[trigger] cases@[i]).inner.matched_value is Some,
{
    let mut plans: Vec<CasePlan> = Vec::new();
    let mut table: Vec<(String, usize)> = Vec::new();
    let mut default_case: Option<usize> = None;
    let mut i: usize = 0;
    while i < cases.len()
        invariant
            cases_in_store(*store, cases@),
            i <= cases@.len(),
            plans@.len() == i,
            forall|j: int| 0 <= j < i ==> (#[trigger] plans@[j]).statements@ == before_break(*store, cases@[j].inner.body@),
            forall|j: int| 0 <= j < i ==> (#[trigger] plans@[j]).next == spec_next(*store, cases@, j),
            table@.map_values(|entry: (String, usize)| (entry.0@, entry.1)) == spec_table(cases@.subrange(0, i as int)),
            default_case == spec_default(cases@.subrange(0, i as int)),
            default_case matches Some(d) ==> d < i && cases@[d as int].inner.matched_value is None,
            default_case is None ==> forall|j: int| 0 <= j < i ==> (#[trigger] cases@[j]).inner.matched_value is Some,
        decreases cases@.len() - i,
    {
        let plan = plan_case(store, cases, i);
        plans.push(plan);
        let ghost prefix = cases@.subrange(0, i + 1);
        proof {
            assert(prefix.drop_last() =~= cases@.subrange(0, i as int));
            assert(prefix.last() == cases@[i as int]);
        }
        match &cases[i].inner.matched_value {
            Some(value) => {
                let ghost before = table@;
                table.push((value.inner.clone(), i));
                proof {
                    assert(table@.map_values(|entry: (String, usize)| (entry.0@, entry.1))
                        =~= before.map_values(|entry: (String, usize)| (entry.0@, entry.1)).push((value.inner@, i)));
                }
            },
            None => {
                default_case = Some(i);
            },
        }
        i = i + 1;
    }
    proof {
        assert(cases@.subrange(0, cases@.len() as int) =~= cases@);
    }
    SwitchPlan { cases: plans, table, default_case }
}

} // verus!
