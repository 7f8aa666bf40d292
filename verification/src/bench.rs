//! What the clients and the benchmarks run, and how their work is spread.

use crate::demo;
use crate::demo::all_queries;
use crate::text;
use crate::text::decimal_text;
use vstd::prelude::*;
use vstd::string::*;

verus! {

/// How many characters of a query are shown.
pub const PREVIEW_LEN: usize = 100;

/// The queries that the demo client runs: all demo queries, or the one that is
/// given.
pub fn client_queries(all_demo: bool, query: &str) -> (r: Vec<(String, String)>)
    ensures
        r.deep_view() == (if all_demo {
            demo::demo_query_texts()
        } else {
            seq![("query"@, query@)]
        }),
{
    if all_demo {
        return all_queries();
    }
    let r: Vec<(String, String)> = vec![("query".to_owned(), query.to_owned())];
    assert(r.deep_view() =~= seq![("query"@, query@)]);
    r
}

/// The name of a way to fetch results.
pub fn mode_name(plain: bool) -> (r: &'static str)
    ensures
        r@ == (if plain {
            "plain Flight"@
        } else {
            "ADBC FlightSQL"@
        }),
{
    if plain {
        "plain Flight"
    } else {
        "ADBC FlightSQL"
    }
}

/// The first `n` of the characters.
pub open spec fn beginning(s: Seq<char>, n: nat) -> Seq<char> {
    if s.len() <= n {
        s
    } else {
        s.take(n as int)
    }
}

/// The beginning of a query, to be shown.
pub fn preview(query: &str) -> (r: &str)
    ensures
        r@ == beginning(query@, PREVIEW_LEN as nat),
{
    if query.unicode_len() <= PREVIEW_LEN {
        query
    } else {
        query.substring_char(0, PREVIEW_LEN)
    }
}

/// The largest share of a task, where `tasks` tasks share the work.
pub open spec fn largest_share(work: nat, tasks: nat) -> nat {
    (work + tasks - 1) as nat / tasks
}

/// The share of the task number `task`: each task in turn takes the largest
/// share while there is so much left. `None` where the tasks before took more
/// than there was.
pub open spec fn share(work: nat, tasks: nat, task: nat) -> Option<nat> {
    let most = largest_share(work, tasks);
    if most * task > work {
        None
    } else if most * (task + 1) <= work {
        Some(most)
    } else {
        Some((work - most * task) as nat)
    }
}

/// The share of the task number `task` in the iterations.
pub fn task_share(iterations: usize, concurrency: usize, task: usize) -> (r: Option<usize>)
    requires
        concurrency > 0,
    ensures
        match r {
            Some(n) => share(iterations as nat, concurrency as nat, task as nat) == Some(n as nat),
            None => share(iterations as nat, concurrency as nat, task as nat) is None,
        },
{
    let whole: usize = iterations / concurrency;
    proof {
        lemma_largest_share(iterations as int, concurrency as int);
    }
    let most: usize = if iterations % concurrency == 0 {
        whole
    } else {
        whole + 1
    };
    assert(most * (task + 1) == most * task + most) by (nonlinear_arith);
    match most.checked_mul(task) {
        Some(before) => if before > iterations {
            None
        } else if most <= iterations - before {
            Some(most)
        } else {
            Some(iterations - before)
        },
        None => None,
    }
}

/// The work of the first `n` tasks, taken together.
pub open spec fn shared_work(work: nat, tasks: nat, n: nat) -> nat
    decreases n,
{
    if n == 0 {
        0
    } else {
        shared_work(work, tasks, (n - 1) as nat) + (match share(work, tasks, (n - 1) as nat) {
            Some(part) => part,
            None => 0,
        })
    }
}

/// Where every task has a share, the tasks together do all of the work, and
/// no more.
pub proof fn shares_make_the_whole(work: nat, tasks: nat)
    requires
        tasks > 0,
        share(work, tasks, (tasks - 1) as nat) is Some,
    ensures
        shared_work(work, tasks, tasks) == work,
{
    let most = largest_share(work, tasks);
    lemma_largest_share(work as int, tasks as int);
    lemma_shared_work(work, tasks, tasks);
    assert(most * tasks >= work) by (nonlinear_arith)
        requires
            work == tasks * (work / tasks) + work % tasks,
            0 <= work % tasks < tasks,
            most == work / tasks + (if work % tasks == 0 {
                0int
            } else {
                1int
            }),
    ;
}

/// The first tasks take the largest share each, while there is so much.
proof fn lemma_shared_work(work: nat, tasks: nat, n: nat)
    requires
        0 < n <= tasks,
        share(work, tasks, (tasks - 1) as nat) is Some,
    ensures
        shared_work(work, tasks, n) == (if largest_share(work, tasks) * n <= work {
            largest_share(work, tasks) * n
        } else {
            work
        }),
    decreases n,
{
    let most = largest_share(work, tasks);
    let before = (n - 1) as nat;
    assert(most * n == most * before + most) by (nonlinear_arith)
        requires
            n == before + 1,
    ;
    assert(most * before <= most * (tasks - 1)) by (nonlinear_arith)
        requires
            before <= tasks - 1,
            most >= 0,
    ;
    if before > 0 {
        lemma_shared_work(work, tasks, before);
    } else {
        assert(most * before == 0) by (nonlinear_arith)
            requires
                before == 0,
        ;
        assert(shared_work(work, tasks, 0) == 0);
    }
}

/// The largest share is the quotient, and one more where something is left.
proof fn lemma_largest_share(work: int, tasks: int)
    requires
        work >= 0,
        tasks > 0,
    ensures
        largest_share(work as nat, tasks as nat) == work / tasks + (if work % tasks == 0 {
            0int
        } else {
            1int
        }),
        work == tasks * (work / tasks) + work % tasks,
        0 <= work % tasks < tasks,
        work % tasks != 0 ==> work / tasks < work,
        work / tasks >= 0,
{
    let q = work / tasks;
    let r = work % tasks;
    vstd::arithmetic::div_mod::lemma_fundamental_div_mod(work, tasks);
    assert(q >= 0) by (nonlinear_arith)
        requires
            work == tasks * q + r,
            0 <= r < tasks,
            work >= 0,
            tasks > 0,
    ;
    if r == 0 {
        assert(work + tasks - 1 == q * tasks + (tasks - 1)) by (nonlinear_arith)
            requires
                work == tasks * q + r,
                r == 0,
        ;
        vstd::arithmetic::div_mod::lemma_fundamental_div_mod_converse(
            work + tasks - 1,
            tasks,
            q,
            tasks - 1,
        );
    } else {
        assert(work + tasks - 1 == (q + 1) * tasks + (r - 1)) by (nonlinear_arith)
            requires
                work == tasks * q + r,
        ;
        vstd::arithmetic::div_mod::lemma_fundamental_div_mod_converse(
            work + tasks - 1,
            tasks,
            q + 1,
            r - 1,
        );
        assert(q < work) by (nonlinear_arith)
            requires
                work == tasks * q + r,
                r > 0,
                tasks > 0,
                q >= 0,
        ;
    }
}

/// The query of which the result has `n` rows of mixed types.
pub fn rows_query(n: usize) -> (r: String)
    ensures
        r@ == "UNWIND range(1, "@ + text::decimal(n as nat)
            + ") AS i RETURN i AS id, i % 1000 AS bucket, CAST(i AS STRING) AS name"@,
{
    "UNWIND range(1, ".to_owned().concat(decimal_text(n as u64).as_str()).concat(
        ") AS i RETURN i AS id, i % 1000 AS bucket, CAST(i AS STRING) AS name",
    )
}

/// Whether as many rows came as were expected.
pub fn check_rows(expected: usize, rows: usize) -> (r: Result<(), String>)
    ensures
        match r {
            Ok(()) => rows == expected,
            Err(e) => rows != expected && e@ == "expected "@ + text::decimal(expected as nat)
                + " rows, got "@ + text::decimal(rows as nat),
        },
{
    if rows == expected {
        return Ok(());
    }
    Err(
        "expected ".to_owned().concat(decimal_text(expected as u64).as_str()).concat(
            " rows, got ",
        ).concat(decimal_text(rows as u64).as_str()),
    )
}

/// Whether there is a batch to encode.
pub fn check_batches(count: usize) -> (r: Result<(), String>)
    ensures
        match r {
            Ok(()) => count > 0,
            Err(e) => count == 0 && e@ == "no batches to encode"@,
        },
{
    if count == 0 {
        return Err("no batches to encode".to_owned());
    }
    Ok(())
}

/// Of a query as much is shown as fits: its first hundred characters, or all of
/// it where it has no more.
pub proof fn preview_is_the_beginning(query: &str, r: &str)
    requires
        call_ensures(preview, (query,), r),
    ensures
        r@.is_prefix_of(query@),
        query@.len() <= 100 ==> r@ == query@,
        query@.len() > 100 ==> r@.len() == 100,
{
    if query@.len() > 100 {
        assert(r@ =~= query@.subrange(0, 100));
    } else {
        assert(r@ =~= query@.subrange(0, query@.len() as int));
    }
}

/// No task does more than its share of the work, rounded up. Each takes that
/// much while there is so much left behind the tasks in front of it, and what is
/// left where there is less. A task has no share only where those in front of it
/// would have taken more than there is.
pub proof fn shares_are_even(
    iterations: usize,
    concurrency: usize,
    task: usize,
    r: Option<usize>,
)
    requires
        concurrency > 0,
        call_ensures(task_share, (iterations, concurrency, task), r),
    ensures
        r matches Some(n) ==> n * concurrency < iterations + concurrency,
        exists|most: nat|
            {
                &&& iterations <= #[trigger] (most * concurrency)
                &&& most * concurrency < iterations + concurrency
                &&& match r {
                    Some(n) => {
                        &&& n <= most
                        &&& most * task + n <= iterations
                        &&& n < most ==> most * task + n == iterations
                    },
                    None => most * task > iterations,
                }
            },
{
    let most = largest_share(iterations as nat, concurrency as nat);
    lemma_largest_share(iterations as int, concurrency as int);
    let q = iterations as int / concurrency as int;
    let rest = iterations as int % concurrency as int;
    assert(iterations <= most * concurrency < iterations + concurrency) by (nonlinear_arith)
        requires
            iterations == concurrency * q + rest,
            0 <= rest < concurrency,
            most == q + (if rest == 0 {
                0int
            } else {
                1int
            }),
    ;
    assert(most * (task + 1) == most * task + most) by (nonlinear_arith);
    if let Some(n) = r {
        assert(n <= most);
        assert(n * concurrency <= most * concurrency) by (nonlinear_arith)
            requires
                n <= most,
        ;
    }
}

/// What the benchmark asks for: a query whose text holds the number of rows in
/// decimal, and rows and batches of which it complains where they are missing.
pub proof fn benchmark_asks_for_rows(
    n: usize,
    query: String,
    expected: usize,
    rows: usize,
    counted: Result<(), String>,
    batches: usize,
    encoded: Result<(), String>,
)
    requires
        call_ensures(rows_query, (n,), query),
        call_ensures(check_rows, (expected, rows), counted),
        call_ensures(check_batches, (batches,), encoded),
    ensures
        query@ == "UNWIND range(1, "@ + text::decimal(n as nat)
            + ") AS i RETURN i AS id, i % 1000 AS bucket, CAST(i AS STRING) AS name"@,
        counted is Ok <==> rows == expected,
        counted matches Err(e) ==> e@ == "expected "@ + text::decimal(expected as nat)
            + " rows, got "@ + text::decimal(rows as nat),
        encoded is Ok <==> batches > 0,
        encoded matches Err(e) ==> e@ == "no batches to encode"@,
{
}

/// What the demo client runs: every demo query, or the query that it is given,
/// under the name "query". The two ways to fetch results have names of their
/// own.
pub proof fn client_runs_what_it_is_given(
    all: bool,
    query: &str,
    r: Vec<(String, String)>,
    every: Vec<(String, String)>,
    plain: bool,
    name: &'static str,
)
    requires
        call_ensures(client_queries, (all, query), r),
        call_ensures(all_queries, (), every),
        call_ensures(mode_name, (plain,), name),
    ensures
        all ==> r.deep_view() == every.deep_view() && r.len() == 6,
        !all ==> r.len() == 1 && r[0].0@ == "query"@ && r[0].1@ == query@,
        plain ==> name@ == "plain Flight"@,
        !plain ==> name@ == "ADBC FlightSQL"@,
{
    let shown = r.deep_view();
    assert(shown.len() == r.len());
    assert(demo::demo_query_texts().len() == 6);
    if !all {
        assert(shown[0] == r[0].deep_view());
    }
}

} // verus!
