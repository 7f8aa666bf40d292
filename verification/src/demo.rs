//! The demo graph and the demo queries.

use crate::text;
use crate::text::{decimal_text, has_text, join_texts, same_text};
use vstd::prelude::*;
use vstd::string::*;

verus! {

/// All users.
pub const ALL_USERS: &'static str = "MATCH (u:User) RETURN u.name, u.age ORDER BY u.id";

/// Who follows whom.
pub const FOLLOWS: &'static str =
    "MATCH (a:User)-[f:Follows]->(b:User) RETURN a.name AS follower, b.name AS followed, f.since ORDER BY f.since";

/// Who lives where.
pub const LIVES_IN: &'static str =
    "MATCH (u:User)-[:LivesIn]->(c:City) RETURN u.name, c.name AS city ORDER BY u.name";

/// Who lives in San Francisco.
pub const SF_USERS: &'static str =
    "MATCH (u:User)-[:LivesIn]->(c:City {name: 'San Francisco'}) RETURN u.name, u.age";

/// Whom those follow whom Alice follows.
pub const TWO_HOP_FROM_ALICE: &'static str =
    "MATCH (a:User {name: 'Alice'})-[:Follows]->(b:User)-[:Follows]->(c:User) RETURN a.name AS start, b.name AS via, c.name AS reached";

/// Who follows somebody of the same city.
pub const SAME_CITY_FOLLOWS: &'static str =
    "MATCH (a:User)-[:Follows]->(b:User), (a)-[:LivesIn]->(c:City)<-[:LivesIn]-(b) RETURN a.name AS user, b.name AS follows, c.name AS shared_city";

/// Creates the table of users.
pub const CREATE_USER: &'static str =
    "CREATE NODE TABLE User (id INT64, name STRING, age INT64, PRIMARY KEY(id))";

/// Creates the table of cities.
pub const CREATE_CITY: &'static str =
    "CREATE NODE TABLE City (id INT64, name STRING, population INT64, PRIMARY KEY(id))";

/// Creates the table of who follows whom.
pub const CREATE_FOLLOWS: &'static str =
    "CREATE REL TABLE Follows (FROM User TO User, since INT64)";

/// Creates the table of who lives where.
pub const CREATE_LIVES_IN: &'static str = "CREATE REL TABLE LivesIn (FROM User TO City)";

/// How many statements create tables.
pub const SCHEMA_STATEMENTS: usize = 4;

/// The labels and the texts of the demo queries.
pub open spec fn demo_query_texts() -> Seq<(Seq<char>, Seq<char>)> {
    seq![
        ("all_users"@, ALL_USERS@),
        ("follows"@, FOLLOWS@),
        ("lives_in"@, LIVES_IN@),
        ("sf_users"@, SF_USERS@),
        ("two_hop_from_alice"@, TWO_HOP_FROM_ALICE@),
        ("same_city_follows"@, SAME_CITY_FOLLOWS@),
    ]
}

/// The statement that creates a user.
pub open spec fn user_statement(id: nat, name: Seq<char>, age: nat) -> Seq<char> {
    "CREATE (u:User {id: "@ + text::decimal(id) + ", name: '"@ + name + "', age: "@ + text::decimal(
        age,
    ) + "})"@
}

/// The statement that creates a city.
pub open spec fn city_statement(id: nat, name: Seq<char>, population: nat) -> Seq<char> {
    "CREATE (c:City {id: "@ + text::decimal(id) + ", name: '"@ + name + "', population: "@
        + text::decimal(population) + "})"@
}

/// The statement that lets a user follow another.
pub open spec fn follows_statement(src: nat, dst: nat, since: nat) -> Seq<char> {
    "MATCH (a:User {id:"@ + text::decimal(src) + "}), (b:User {id:"@ + text::decimal(dst)
        + "}) CREATE (a)-[:Follows {since: "@ + text::decimal(since) + "}]->(b)"@
}

/// The statement that lets a user live in a city.
pub open spec fn lives_in_statement(user: nat, city: nat) -> Seq<char> {
    "MATCH (u:User {id:"@ + text::decimal(user) + "}), (c:City {id:"@ + text::decimal(city)
        + "}) CREATE (u)-[:LivesIn]->(c)"@
}

/// The statements that build the demo graph: first the tables, then the rows.
pub open spec fn graph_statements() -> Seq<Seq<char>> {
    seq![
        CREATE_USER@,
        CREATE_CITY@,
        CREATE_FOLLOWS@,
        CREATE_LIVES_IN@,
        user_statement(1, "Alice"@, 30),
        user_statement(2, "Bob"@, 25),
        user_statement(3, "Carol"@, 35),
        user_statement(4, "Dave"@, 28),
        user_statement(5, "Eve"@, 22),
        city_statement(1, "San Francisco"@, 874961),
        city_statement(2, "New York"@, 8336817),
        city_statement(3, "Chicago"@, 2693976),
        follows_statement(1, 2, 2020),
        follows_statement(1, 3, 2021),
        follows_statement(2, 4, 2022),
        follows_statement(3, 5, 2023),
        follows_statement(4, 1, 2021),
        follows_statement(5, 2, 2024),
        lives_in_statement(1, 1),
        lives_in_statement(2, 2),
        lives_in_statement(3, 1),
        lives_in_statement(4, 3),
        lives_in_statement(5, 2),
    ]
}

/// Whether an error with this message, in lower case, says that what a
/// statement creates is there already.
pub open spec fn says_existing(lowered: Seq<char>) -> bool {
    text::contains(lowered, "already exists"@) || text::contains(lowered, "duplicate"@)
}

/// Whether the load goes on after the statement at `index` failed with this
/// message: a row may always fail, a table only because it is there already.
pub open spec fn tolerates(index: int, message: Seq<char>) -> bool {
    index >= SCHEMA_STATEMENTS || says_existing(text::lowercase_text(message))
}

/// The demo queries, each with its label.
pub fn demo_queries() -> (r: Vec<(&'static str, &'static str)>)
    ensures
        r.deep_view() == demo_query_texts(),
{
    let r: Vec<(&'static str, &'static str)> =
        vec![
        ("all_users", ALL_USERS),
        ("follows", FOLLOWS),
        ("lives_in", LIVES_IN),
        ("sf_users", SF_USERS),
        ("two_hop_from_alice", TWO_HOP_FROM_ALICE),
        ("same_city_follows", SAME_CITY_FOLLOWS),
    ];
    assert(r.deep_view() =~= demo_query_texts());
    r
}

/// The statement that creates a user.
fn create_user(id: u64, name: &str, age: u64) -> (r: String)
    ensures
        r@ == user_statement(id as nat, name@, age as nat),
{
    "CREATE (u:User {id: ".to_owned().concat(decimal_text(id).as_str()).concat(", name: '").concat(
        name,
    ).concat("', age: ").concat(decimal_text(age).as_str()).concat("})")
}

/// The statement that creates a city.
fn create_city(id: u64, name: &str, population: u64) -> (r: String)
    ensures
        r@ == city_statement(id as nat, name@, population as nat),
{
    "CREATE (c:City {id: ".to_owned().concat(decimal_text(id).as_str()).concat(", name: '").concat(
        name,
    ).concat("', population: ").concat(decimal_text(population).as_str()).concat("})")
}

/// The statement that lets a user follow another.
fn create_follows(src: u64, dst: u64, since: u64) -> (r: String)
    ensures
        r@ == follows_statement(src as nat, dst as nat, since as nat),
{
    "MATCH (a:User {id:".to_owned().concat(decimal_text(src).as_str()).concat(
        "}), (b:User {id:",
    ).concat(decimal_text(dst).as_str()).concat("}) CREATE (a)-[:Follows {since: ").concat(
        decimal_text(since).as_str(),
    ).concat("}]->(b)")
}

/// The statement that lets a user live in a city.
fn create_lives_in(user: u64, city: u64) -> (r: String)
    ensures
        r@ == lives_in_statement(user as nat, city as nat),
{
    "MATCH (u:User {id:".to_owned().concat(decimal_text(user).as_str()).concat(
        "}), (c:City {id:",
    ).concat(decimal_text(city).as_str()).concat("}) CREATE (u)-[:LivesIn]->(c)")
}

/// The statements that build the demo graph: first the tables, then the rows.
pub fn demo_statements() -> (r: Vec<String>)
    ensures
        r.deep_view() == graph_statements(),
{
    let r: Vec<String> =
        vec![
        CREATE_USER.to_owned(),
        CREATE_CITY.to_owned(),
        CREATE_FOLLOWS.to_owned(),
        CREATE_LIVES_IN.to_owned(),
        create_user(1, "Alice", 30),
        create_user(2, "Bob", 25),
        create_user(3, "Carol", 35),
        create_user(4, "Dave", 28),
        create_user(5, "Eve", 22),
        create_city(1, "San Francisco", 874961),
        create_city(2, "New York", 8336817),
        create_city(3, "Chicago", 2693976),
        create_follows(1, 2, 2020),
        create_follows(1, 3, 2021),
        create_follows(2, 4, 2022),
        create_follows(3, 5, 2023),
        create_follows(4, 1, 2021),
        create_follows(5, 2, 2024),
        create_lives_in(1, 1),
        create_lives_in(2, 2),
        create_lives_in(3, 1),
        create_lives_in(4, 3),
        create_lives_in(5, 2),
    ];
    assert(r.deep_view() =~= graph_statements());
    r
}

/// Whether a message in lower case says that what a statement creates is
/// there already.
pub fn reports_existing(lowered: &str) -> (r: bool)
    ensures
        r == says_existing(lowered@),
{
    has_text(lowered, "already exists") || has_text(lowered, "duplicate")
}

/// A load of the demo graph: the statements and how many of them were run.
pub struct DemoLoad {
    statements: Vec<String>,
    done: usize,
}

impl DemoLoad {
    /// How many statements were run.
    pub closed spec fn done(&self) -> nat {
        self.done as nat
    }

    /// The statements are those of the demo graph.
    pub closed spec fn wf(&self) -> bool {
        &&& self.statements.deep_view() == graph_statements()
        &&& self.done <= graph_statements().len()
    }

    /// A load of which nothing was run.
    pub fn start() -> (load: Self)
        ensures
            load.wf(),
            load.done() == 0,
    {
        DemoLoad { statements: demo_statements(), done: 0 }
    }

    /// The statement to run next, if any is left.
    pub fn next(&self) -> (r: Option<String>)
        requires
            self.wf(),
        ensures
            match r {
                Some(statement) => self.done() < graph_statements().len() && statement@
                    == graph_statements()[self.done() as int],
                None => self.done() == graph_statements().len(),
            },
    {
        assert(self.statements.deep_view().len() == self.statements.len());
        if self.done < self.statements.len() {
            let ghost shown = self.statements.deep_view()[self.done as int];
            assert(shown == self.statements[self.done as int]@);
            Some(self.statements[self.done].clone())
        } else {
            None
        }
    }

    /// Takes the outcome of the statement that was to run next. The load goes
    /// on, or it ends with the message of the failure.
    pub fn record(&mut self, outcome: Result<(), String>) -> (r: Result<(), String>)
        requires
            old(self).wf(),
            old(self).done() < graph_statements().len(),
        ensures
            final(self).wf(),
            match outcome {
                Ok(()) => r is Ok,
                Err(message) => if tolerates(old(self).done() as int, message@) {
                    r is Ok
                } else {
                    r matches Err(e) && e@ == message@
                },
            },
            r is Ok ==> final(self).done() == old(self).done() + 1,
            r is Err ==> final(self).done() == old(self).done(),
    {
        if let Err(message) = outcome {
            if self.done < SCHEMA_STATEMENTS && !reports_existing(
                message.as_str().to_lowercase().as_str(),
            ) {
                return Err(message);
            }
        }
        self.done = self.done + 1;
        Ok(())
    }
}

/// The demo graph can be loaded where it is there already: a failure that says
/// so is tolerated at every statement, and at a row any failure is.
pub proof fn reloading_is_tolerated(index: int, message: Seq<char>)
    ensures
        says_existing(text::lowercase_text(message)) ==> tolerates(index, message),
        SCHEMA_STATEMENTS <= index < graph_statements().len() ==> tolerates(index, message),
{
}

/// The lines that list the demo queries: label and text, with a colon and a
/// space between.
pub open spec fn query_lines(queries: Seq<(Seq<char>, Seq<char>)>) -> Seq<Seq<char>> {
    queries.map_values(|q: (Seq<char>, Seq<char>)| q.0 + ": "@ + q.1)
}

/// The list of the demo queries, one to a line.
pub fn list_queries_text() -> (r: String)
    ensures
        r@ == text::joined(query_lines(demo_query_texts()), "\n"@),
{
    let queries: Vec<(&'static str, &'static str)> = demo_queries();
    let ghost texts = demo_query_texts();
    let mut lines: Vec<String> = Vec::new();
    let mut i: usize = 0;
    assert(queries.len() == queries.deep_view().len());
    while i < queries.len()
        invariant
            i <= queries.len(),
            queries.deep_view() == texts,
            lines.deep_view() =~= query_lines(texts).take(i as int),
        decreases queries.len() - i,
    {
        let ghost before = lines.deep_view();
        assert(texts[i as int] == queries[i as int].deep_view());
        let line: String = queries[i].0.to_owned().concat(": ").concat(queries[i].1);
        let ghost shown = line@;
        lines.push(line);
        assert(lines.deep_view() =~= before.push(shown));
        i = i + 1;
    }
    assert(query_lines(texts).take(i as int) =~= query_lines(texts));
    join_texts(&lines, "\n")
}

/// The queries to run for `selection`: all of them for "all", the one with
/// this label, or else the selection itself as a query.
pub open spec fn selected(selection: Seq<char>) -> Seq<(Seq<char>, Seq<char>)> {
    if selection == "all"@ {
        demo_query_texts()
    } else {
        seq![(selection, labelled(demo_query_texts(), selection))]
    }
}

/// The text of the first query with this label, or the label where there is
/// none.
pub open spec fn labelled(
    queries: Seq<(Seq<char>, Seq<char>)>,
    label: Seq<char>,
) -> Seq<char>
    decreases queries.len(),
{
    if queries.len() == 0 {
        label
    } else if queries[0].0 == label {
        queries[0].1
    } else {
        labelled(queries.drop_first(), label)
    }
}

/// The demo queries, owned.
pub fn all_queries() -> (r: Vec<(String, String)>)
    ensures
        r.deep_view() == demo_query_texts(),
{
    let queries: Vec<(&'static str, &'static str)> = demo_queries();
    let ghost texts = demo_query_texts();
    let mut out: Vec<(String, String)> = Vec::new();
    let mut i: usize = 0;
    assert(queries.len() == queries.deep_view().len());
    while i < queries.len()
        invariant
            i <= queries.len(),
            queries.deep_view() == texts,
            out.deep_view() =~= texts.take(i as int),
        decreases queries.len() - i,
    {
        let ghost before = out.deep_view();
        assert(texts[i as int] == queries[i as int].deep_view());
        let pair: (String, String) = (queries[i].0.to_owned(), queries[i].1.to_owned());
        let ghost shown = pair.deep_view();
        out.push(pair);
        assert(out.deep_view() =~= before.push(shown));
        i = i + 1;
    }
    assert(texts.take(i as int) =~= texts);
    out
}

/// The queries to run for `selection`: all of them for "all", the one with
/// this label, or else the selection itself as a query.
pub fn select_queries(selection: &str) -> (r: Vec<(String, String)>)
    ensures
        r.deep_view() == selected(selection@),
{
    if same_text(selection, "all") {
        return all_queries();
    }
    let queries: Vec<(&'static str, &'static str)> = demo_queries();
    let ghost texts = demo_query_texts();
    let mut found: String = selection.to_owned();
    let mut i: usize = 0;
    assert(queries.len() == queries.deep_view().len());
    assert(texts.skip(0) =~= texts);
    while i < queries.len()
        invariant_except_break
            found@ == selection@,
            labelled(texts, selection@) == labelled(texts.skip(i as int), selection@),
        invariant
            i <= queries.len(),
            queries.deep_view() == texts,
        ensures
            found@ == labelled(texts, selection@),
        decreases queries.len() - i,
    {
        assert(texts.skip(i as int)[0] == queries[i as int].deep_view());
        if same_text(queries[i].0, selection) {
            found = queries[i].1.to_owned();
            break;
        }
        assert(texts.skip(i as int).drop_first() =~= texts.skip(i + 1));
        i = i + 1;
    }
    let r: Vec<(String, String)> = vec![(selection.to_owned(), found)];
    assert(r.deep_view() =~= selected(selection@));
    r
}

/// The users of the demo graph: of each the id, the name and the age.
pub open spec fn users() -> Seq<(nat, Seq<char>, nat)> {
    seq![
        (1nat, "Alice"@, 30nat),
        (2nat, "Bob"@, 25nat),
        (3nat, "Carol"@, 35nat),
        (4nat, "Dave"@, 28nat),
        (5nat, "Eve"@, 22nat),
    ]
}

/// The cities of the demo graph: of each the id, the name and the population.
pub open spec fn cities() -> Seq<(nat, Seq<char>, nat)> {
    seq![
        (1nat, "San Francisco"@, 874961nat),
        (2nat, "New York"@, 8336817nat),
        (3nat, "Chicago"@, 2693976nat),
    ]
}

/// Who follows whom in the demo graph: the id of the user who follows, the id
/// of the one who is followed, and since when.
pub open spec fn follow_edges() -> Seq<(nat, nat, nat)> {
    seq![
        (1nat, 2nat, 2020nat),
        (1nat, 3nat, 2021nat),
        (2nat, 4nat, 2022nat),
        (3nat, 5nat, 2023nat),
        (4nat, 1nat, 2021nat),
        (5nat, 2nat, 2024nat),
    ]
}

/// Who lives where in the demo graph: the id of the user, and that of the city.
pub open spec fn homes() -> Seq<(nat, nat)> {
    seq![(1nat, 1nat), (2nat, 2nat), (3nat, 1nat), (4nat, 3nat), (5nat, 2nat)]
}

/// Whether one user follows another, since this year.
pub open spec fn follows(src: nat, dst: nat, since: nat) -> bool {
    follow_edges().contains((src, dst, since))
}

/// Whether one user follows another, since whenever.
pub open spec fn is_follower(src: nat, dst: nat) -> bool {
    exists|since: nat| follows(src, dst, since)
}

/// Whether a user lives in a city.
pub open spec fn lives_in(user: nat, city: nat) -> bool {
    homes().contains((user, city))
}

/// Who follows whom, and since when: Alice (1) follows Bob (2) since 2020 and
/// Carol (3) since 2021, and nobody else; Bob follows Dave (4) since 2022, Carol
/// follows Eve (5) since 2023, Dave follows Alice since 2021, and Eve follows
/// Bob since 2024, each of them nobody else.
pub proof fn followed_users(src: nat, dst: nat, since: nat)
    ensures
        follows(src, dst, since) <==> {
            ||| src == 1 && dst == 2 && since == 2020
            ||| src == 1 && dst == 3 && since == 2021
            ||| src == 2 && dst == 4 && since == 2022
            ||| src == 3 && dst == 5 && since == 2023
            ||| src == 4 && dst == 1 && since == 2021
            ||| src == 5 && dst == 2 && since == 2024
        },
{
    let edges = follow_edges();
    if follows(src, dst, since) {
        let i = choose|i: int| 0 <= i < edges.len() && edges[i] == (src, dst, since);
        assert(edges[i] == (src, dst, since));
    }
    assert(edges[0] == (1nat, 2nat, 2020nat));
    assert(edges[1] == (1nat, 3nat, 2021nat));
    assert(edges[2] == (2nat, 4nat, 2022nat));
    assert(edges[3] == (3nat, 5nat, 2023nat));
    assert(edges[4] == (4nat, 1nat, 2021nat));
    assert(edges[5] == (5nat, 2nat, 2024nat));
}

/// Alice follows Bob and Carol alone; Eve is followed by Carol alone; and nobody
/// follows themselves, nor does anybody follow back.
pub proof fn follower_facts(src: nat, dst: nat)
    ensures
        is_follower(1, dst) <==> dst == 2 || dst == 3,
        is_follower(2, dst) <==> dst == 4,
        is_follower(3, dst) <==> dst == 5,
        is_follower(4, dst) <==> dst == 1,
        is_follower(5, dst) <==> dst == 2,
        is_follower(src, 1) <==> src == 4,
        is_follower(src, 2) <==> src == 1 || src == 5,
        is_follower(src, 3) <==> src == 1,
        is_follower(src, 4) <==> src == 2,
        is_follower(src, 5) <==> src == 3,
        is_follower(src, dst) ==> src != dst && !is_follower(dst, src),
{
    assert forall|a: nat, b: nat, since: nat| #[trigger] follows(a, b, since) <==> {
        ||| a == 1 && b == 2 && since == 2020
        ||| a == 1 && b == 3 && since == 2021
        ||| a == 2 && b == 4 && since == 2022
        ||| a == 3 && b == 5 && since == 2023
        ||| a == 4 && b == 1 && since == 2021
        ||| a == 5 && b == 2 && since == 2024
    } by {
        followed_users(a, b, since);
    }
    assert(follows(1, 2, 2020));
    assert(follows(1, 3, 2021));
    assert(follows(2, 4, 2022));
    assert(follows(3, 5, 2023));
    assert(follows(4, 1, 2021));
    assert(follows(5, 2, 2024));
}

/// Who lives where: Alice and Carol in San Francisco (1), Bob and Eve in New
/// York (2), Dave in Chicago (3), each of them there alone.
pub proof fn home_facts(user: nat, city: nat)
    ensures
        lives_in(user, city) <==> {
            ||| user == 1 && city == 1
            ||| user == 2 && city == 2
            ||| user == 3 && city == 1
            ||| user == 4 && city == 3
            ||| user == 5 && city == 2
        },
        lives_in(user, 1) <==> user == 1 || user == 3,
        lives_in(user, 2) <==> user == 2 || user == 5,
        lives_in(user, 3) <==> user == 4,
{
    let all = homes();
    assert(all[0] == (1nat, 1nat));
    assert(all[1] == (2nat, 2nat));
    assert(all[2] == (3nat, 1nat));
    assert(all[3] == (4nat, 3nat));
    assert(all[4] == (5nat, 2nat));
}

/// The statements that build the demo graph: the four tables, then a statement
/// for each user, each city, each pair of users of whom one follows the other,
/// and each home.
pub proof fn statements_build_the_graph(i: int)
    ensures
        graph_statements().len() == 4 + users().len() + cities().len() + follow_edges().len()
            + homes().len(),
        0 <= i < 5 ==> {
            let (id, name, age) = users()[i];
            graph_statements()[4 + i] == user_statement(id, name, age)
        },
        0 <= i < 3 ==> {
            let (id, name, population) = cities()[i];
            graph_statements()[9 + i] == city_statement(id, name, population)
        },
        0 <= i < 6 ==> {
            let (src, dst, since) = follow_edges()[i];
            graph_statements()[12 + i] == follows_statement(src, dst, since)
        },
        0 <= i < 5 ==> {
            let (user, city) = homes()[i];
            graph_statements()[18 + i] == lives_in_statement(user, city)
        },
{
}

/// The statements that create the users, in full.
pub proof fn user_statement_texts()
    ensures
        user_statement(1, "Alice"@, 30)
            == "CREATE (u:User {id: 1, name: 'Alice', age: 30})"@,
        user_statement(2, "Bob"@, 25)
            == "CREATE (u:User {id: 2, name: 'Bob', age: 25})"@,
        user_statement(3, "Carol"@, 35)
            == "CREATE (u:User {id: 3, name: 'Carol', age: 35})"@,
        user_statement(4, "Dave"@, 28)
            == "CREATE (u:User {id: 4, name: 'Dave', age: 28})"@,
        user_statement(5, "Eve"@, 22)
            == "CREATE (u:User {id: 5, name: 'Eve', age: 22})"@,
{
    assert(user_statement(1, "Alice"@, 30)
        == "CREATE (u:User {id: 1, name: 'Alice', age: 30})"@) by {
        reveal_strlit("CREATE (u:User {id: ");
        reveal_strlit(", name: '");
        reveal_strlit("', age: ");
        reveal_strlit("})");
        reveal_strlit("Alice");
        reveal_strlit(
            "CREATE (u:User {id: 1, name: 'Alice', age: 30})",
        );
        reveal_with_fuel(text::decimal, 8);
        assert(user_statement(1, "Alice"@, 30)
            =~= "CREATE (u:User {id: 1, name: 'Alice', age: 30})"@);
    }
    assert(user_statement(2, "Bob"@, 25)
        == "CREATE (u:User {id: 2, name: 'Bob', age: 25})"@) by {
        reveal_strlit("CREATE (u:User {id: ");
        reveal_strlit(", name: '");
        reveal_strlit("', age: ");
        reveal_strlit("})");
        reveal_strlit("Bob");
        reveal_strlit(
            "CREATE (u:User {id: 2, name: 'Bob', age: 25})",
        );
        reveal_with_fuel(text::decimal, 8);
        assert(user_statement(2, "Bob"@, 25)
            =~= "CREATE (u:User {id: 2, name: 'Bob', age: 25})"@);
    }
    assert(user_statement(3, "Carol"@, 35)
        == "CREATE (u:User {id: 3, name: 'Carol', age: 35})"@) by {
        reveal_strlit("CREATE (u:User {id: ");
        reveal_strlit(", name: '");
        reveal_strlit("', age: ");
        reveal_strlit("})");
        reveal_strlit("Carol");
        reveal_strlit(
            "CREATE (u:User {id: 3, name: 'Carol', age: 35})",
        );
        reveal_with_fuel(text::decimal, 8);
        assert(user_statement(3, "Carol"@, 35)
            =~= "CREATE (u:User {id: 3, name: 'Carol', age: 35})"@);
    }
    assert(user_statement(4, "Dave"@, 28)
        == "CREATE (u:User {id: 4, name: 'Dave', age: 28})"@) by {
        reveal_strlit("CREATE (u:User {id: ");
        reveal_strlit(", name: '");
        reveal_strlit("', age: ");
        reveal_strlit("})");
        reveal_strlit("Dave");
        reveal_strlit(
            "CREATE (u:User {id: 4, name: 'Dave', age: 28})",
        );
        reveal_with_fuel(text::decimal, 8);
        assert(user_statement(4, "Dave"@, 28)
            =~= "CREATE (u:User {id: 4, name: 'Dave', age: 28})"@);
    }
    assert(user_statement(5, "Eve"@, 22)
        == "CREATE (u:User {id: 5, name: 'Eve', age: 22})"@) by {
        reveal_strlit("CREATE (u:User {id: ");
        reveal_strlit(", name: '");
        reveal_strlit("', age: ");
        reveal_strlit("})");
        reveal_strlit("Eve");
        reveal_strlit(
            "CREATE (u:User {id: 5, name: 'Eve', age: 22})",
        );
        reveal_with_fuel(text::decimal, 8);
        assert(user_statement(5, "Eve"@, 22)
            =~= "CREATE (u:User {id: 5, name: 'Eve', age: 22})"@);
    }
}

/// The statements that create the cities, in full.
pub proof fn city_statement_texts()
    ensures
        city_statement(1, "San Francisco"@, 874961)
            == "CREATE (c:City {id: 1, name: 'San Francisco', population: 874961})"@,
        city_statement(2, "New York"@, 8336817)
            == "CREATE (c:City {id: 2, name: 'New York', population: 8336817})"@,
        city_statement(3, "Chicago"@, 2693976)
            == "CREATE (c:City {id: 3, name: 'Chicago', population: 2693976})"@,
{
    assert(city_statement(1, "San Francisco"@, 874961)
        == "CREATE (c:City {id: 1, name: 'San Francisco', population: 874961})"@) by {
        reveal_strlit("CREATE (c:City {id: ");
        reveal_strlit(", name: '");
        reveal_strlit("', population: ");
        reveal_strlit("})");
        reveal_strlit("San Francisco");
        reveal_strlit(
            "CREATE (c:City {id: 1, name: 'San Francisco', population: 874961})",
        );
        reveal_with_fuel(text::decimal, 8);
        assert(city_statement(1, "San Francisco"@, 874961)
            =~= "CREATE (c:City {id: 1, name: 'San Francisco', population: 874961})"@);
    }
    assert(city_statement(2, "New York"@, 8336817)
        == "CREATE (c:City {id: 2, name: 'New York', population: 8336817})"@) by {
        reveal_strlit("CREATE (c:City {id: ");
        reveal_strlit(", name: '");
        reveal_strlit("', population: ");
        reveal_strlit("})");
        reveal_strlit("New York");
        reveal_strlit(
            "CREATE (c:City {id: 2, name: 'New York', population: 8336817})",
        );
        reveal_with_fuel(text::decimal, 8);
        assert(city_statement(2, "New York"@, 8336817)
            =~= "CREATE (c:City {id: 2, name: 'New York', population: 8336817})"@);
    }
    assert(city_statement(3, "Chicago"@, 2693976)
        == "CREATE (c:City {id: 3, name: 'Chicago', population: 2693976})"@) by {
        reveal_strlit("CREATE (c:City {id: ");
        reveal_strlit(", name: '");
        reveal_strlit("', population: ");
        reveal_strlit("})");
        reveal_strlit("Chicago");
        reveal_strlit(
            "CREATE (c:City {id: 3, name: 'Chicago', population: 2693976})",
        );
        reveal_with_fuel(text::decimal, 8);
        assert(city_statement(3, "Chicago"@, 2693976)
            =~= "CREATE (c:City {id: 3, name: 'Chicago', population: 2693976})"@);
    }
}

/// The statements that let users follow others, in full: the first of the two is the
/// one who follows.
pub proof fn follows_statement_texts()
    ensures
        follows_statement(1, 2, 2020)
            == "MATCH (a:User {id:1}), (b:User {id:2}) CREATE (a)-[:Follows {since: 2020}]->(b)"@,
        follows_statement(1, 3, 2021)
            == "MATCH (a:User {id:1}), (b:User {id:3}) CREATE (a)-[:Follows {since: 2021}]->(b)"@,
        follows_statement(2, 4, 2022)
            == "MATCH (a:User {id:2}), (b:User {id:4}) CREATE (a)-[:Follows {since: 2022}]->(b)"@,
        follows_statement(3, 5, 2023)
            == "MATCH (a:User {id:3}), (b:User {id:5}) CREATE (a)-[:Follows {since: 2023}]->(b)"@,
        follows_statement(4, 1, 2021)
            == "MATCH (a:User {id:4}), (b:User {id:1}) CREATE (a)-[:Follows {since: 2021}]->(b)"@,
        follows_statement(5, 2, 2024)
            == "MATCH (a:User {id:5}), (b:User {id:2}) CREATE (a)-[:Follows {since: 2024}]->(b)"@,
{
    assert(follows_statement(1, 2, 2020)
        == "MATCH (a:User {id:1}), (b:User {id:2}) CREATE (a)-[:Follows {since: 2020}]->(b)"@) by {
        reveal_strlit("MATCH (a:User {id:");
        reveal_strlit("}), (b:User {id:");
        reveal_strlit("}) CREATE (a)-[:Follows {since: ");
        reveal_strlit("}]->(b)");
        reveal_strlit(
            "MATCH (a:User {id:1}), (b:User {id:2}) CREATE (a)-[:Follows {since: 2020}]->(b)",
        );
        reveal_with_fuel(text::decimal, 8);
        assert(follows_statement(1, 2, 2020)
            =~= "MATCH (a:User {id:1}), (b:User {id:2}) CREATE (a)-[:Follows {since: 2020}]->(b)"@);
    }
    assert(follows_statement(1, 3, 2021)
        == "MATCH (a:User {id:1}), (b:User {id:3}) CREATE (a)-[:Follows {since: 2021}]->(b)"@) by {
        reveal_strlit("MATCH (a:User {id:");
        reveal_strlit("}), (b:User {id:");
        reveal_strlit("}) CREATE (a)-[:Follows {since: ");
        reveal_strlit("}]->(b)");
        reveal_strlit(
            "MATCH (a:User {id:1}), (b:User {id:3}) CREATE (a)-[:Follows {since: 2021}]->(b)",
        );
        reveal_with_fuel(text::decimal, 8);
        assert(follows_statement(1, 3, 2021)
            =~= "MATCH (a:User {id:1}), (b:User {id:3}) CREATE (a)-[:Follows {since: 2021}]->(b)"@);
    }
    assert(follows_statement(2, 4, 2022)
        == "MATCH (a:User {id:2}), (b:User {id:4}) CREATE (a)-[:Follows {since: 2022}]->(b)"@) by {
        reveal_strlit("MATCH (a:User {id:");
        reveal_strlit("}), (b:User {id:");
        reveal_strlit("}) CREATE (a)-[:Follows {since: ");
        reveal_strlit("}]->(b)");
        reveal_strlit(
            "MATCH (a:User {id:2}), (b:User {id:4}) CREATE (a)-[:Follows {since: 2022}]->(b)",
        );
        reveal_with_fuel(text::decimal, 8);
        assert(follows_statement(2, 4, 2022)
            =~= "MATCH (a:User {id:2}), (b:User {id:4}) CREATE (a)-[:Follows {since: 2022}]->(b)"@);
    }
    assert(follows_statement(3, 5, 2023)
        == "MATCH (a:User {id:3}), (b:User {id:5}) CREATE (a)-[:Follows {since: 2023}]->(b)"@) by {
        reveal_strlit("MATCH (a:User {id:");
        reveal_strlit("}), (b:User {id:");
        reveal_strlit("}) CREATE (a)-[:Follows {since: ");
        reveal_strlit("}]->(b)");
        reveal_strlit(
            "MATCH (a:User {id:3}), (b:User {id:5}) CREATE (a)-[:Follows {since: 2023}]->(b)",
        );
        reveal_with_fuel(text::decimal, 8);
        assert(follows_statement(3, 5, 2023)
            =~= "MATCH (a:User {id:3}), (b:User {id:5}) CREATE (a)-[:Follows {since: 2023}]->(b)"@);
    }
    assert(follows_statement(4, 1, 2021)
        == "MATCH (a:User {id:4}), (b:User {id:1}) CREATE (a)-[:Follows {since: 2021}]->(b)"@) by {
        reveal_strlit("MATCH (a:User {id:");
        reveal_strlit("}), (b:User {id:");
        reveal_strlit("}) CREATE (a)-[:Follows {since: ");
        reveal_strlit("}]->(b)");
        reveal_strlit(
            "MATCH (a:User {id:4}), (b:User {id:1}) CREATE (a)-[:Follows {since: 2021}]->(b)",
        );
        reveal_with_fuel(text::decimal, 8);
        assert(follows_statement(4, 1, 2021)
            =~= "MATCH (a:User {id:4}), (b:User {id:1}) CREATE (a)-[:Follows {since: 2021}]->(b)"@);
    }
    assert(follows_statement(5, 2, 2024)
        == "MATCH (a:User {id:5}), (b:User {id:2}) CREATE (a)-[:Follows {since: 2024}]->(b)"@) by {
        reveal_strlit("MATCH (a:User {id:");
        reveal_strlit("}), (b:User {id:");
        reveal_strlit("}) CREATE (a)-[:Follows {since: ");
        reveal_strlit("}]->(b)");
        reveal_strlit(
            "MATCH (a:User {id:5}), (b:User {id:2}) CREATE (a)-[:Follows {since: 2024}]->(b)",
        );
        reveal_with_fuel(text::decimal, 8);
        assert(follows_statement(5, 2, 2024)
            =~= "MATCH (a:User {id:5}), (b:User {id:2}) CREATE (a)-[:Follows {since: 2024}]->(b)"@);
    }
}

/// The statements that let users live in cities, in full.
pub proof fn lives_in_statement_texts()
    ensures
        lives_in_statement(1, 1)
            == "MATCH (u:User {id:1}), (c:City {id:1}) CREATE (u)-[:LivesIn]->(c)"@,
        lives_in_statement(2, 2)
            == "MATCH (u:User {id:2}), (c:City {id:2}) CREATE (u)-[:LivesIn]->(c)"@,
        lives_in_statement(3, 1)
            == "MATCH (u:User {id:3}), (c:City {id:1}) CREATE (u)-[:LivesIn]->(c)"@,
        lives_in_statement(4, 3)
            == "MATCH (u:User {id:4}), (c:City {id:3}) CREATE (u)-[:LivesIn]->(c)"@,
        lives_in_statement(5, 2)
            == "MATCH (u:User {id:5}), (c:City {id:2}) CREATE (u)-[:LivesIn]->(c)"@,
{
    assert(lives_in_statement(1, 1)
        == "MATCH (u:User {id:1}), (c:City {id:1}) CREATE (u)-[:LivesIn]->(c)"@) by {
        reveal_strlit("MATCH (u:User {id:");
        reveal_strlit("}), (c:City {id:");
        reveal_strlit("}) CREATE (u)-[:LivesIn]->(c)");
        reveal_strlit(
            "MATCH (u:User {id:1}), (c:City {id:1}) CREATE (u)-[:LivesIn]->(c)",
        );
        reveal_with_fuel(text::decimal, 8);
        assert(lives_in_statement(1, 1)
            =~= "MATCH (u:User {id:1}), (c:City {id:1}) CREATE (u)-[:LivesIn]->(c)"@);
    }
    assert(lives_in_statement(2, 2)
        == "MATCH (u:User {id:2}), (c:City {id:2}) CREATE (u)-[:LivesIn]->(c)"@) by {
        reveal_strlit("MATCH (u:User {id:");
        reveal_strlit("}), (c:City {id:");
        reveal_strlit("}) CREATE (u)-[:LivesIn]->(c)");
        reveal_strlit(
            "MATCH (u:User {id:2}), (c:City {id:2}) CREATE (u)-[:LivesIn]->(c)",
        );
        reveal_with_fuel(text::decimal, 8);
        assert(lives_in_statement(2, 2)
            =~= "MATCH (u:User {id:2}), (c:City {id:2}) CREATE (u)-[:LivesIn]->(c)"@);
    }
    assert(lives_in_statement(3, 1)
        == "MATCH (u:User {id:3}), (c:City {id:1}) CREATE (u)-[:LivesIn]->(c)"@) by {
        reveal_strlit("MATCH (u:User {id:");
        reveal_strlit("}), (c:City {id:");
        reveal_strlit("}) CREATE (u)-[:LivesIn]->(c)");
        reveal_strlit(
            "MATCH (u:User {id:3}), (c:City {id:1}) CREATE (u)-[:LivesIn]->(c)",
        );
        reveal_with_fuel(text::decimal, 8);
        assert(lives_in_statement(3, 1)
            =~= "MATCH (u:User {id:3}), (c:City {id:1}) CREATE (u)-[:LivesIn]->(c)"@);
    }
    assert(lives_in_statement(4, 3)
        == "MATCH (u:User {id:4}), (c:City {id:3}) CREATE (u)-[:LivesIn]->(c)"@) by {
        reveal_strlit("MATCH (u:User {id:");
        reveal_strlit("}), (c:City {id:");
        reveal_strlit("}) CREATE (u)-[:LivesIn]->(c)");
        reveal_strlit(
            "MATCH (u:User {id:4}), (c:City {id:3}) CREATE (u)-[:LivesIn]->(c)",
        );
        reveal_with_fuel(text::decimal, 8);
        assert(lives_in_statement(4, 3)
            =~= "MATCH (u:User {id:4}), (c:City {id:3}) CREATE (u)-[:LivesIn]->(c)"@);
    }
    assert(lives_in_statement(5, 2)
        == "MATCH (u:User {id:5}), (c:City {id:2}) CREATE (u)-[:LivesIn]->(c)"@) by {
        reveal_strlit("MATCH (u:User {id:");
        reveal_strlit("}), (c:City {id:");
        reveal_strlit("}) CREATE (u)-[:LivesIn]->(c)");
        reveal_strlit(
            "MATCH (u:User {id:5}), (c:City {id:2}) CREATE (u)-[:LivesIn]->(c)",
        );
        reveal_with_fuel(text::decimal, 8);
        assert(lives_in_statement(5, 2)
            =~= "MATCH (u:User {id:5}), (c:City {id:2}) CREATE (u)-[:LivesIn]->(c)"@);
    }
}

/// The statements of the demo graph, in full and in order.
pub proof fn statements_in_full(statements: Vec<String>)
    requires
        call_ensures(demo_statements, (), statements),
    ensures
        statements.len() == 23,
        SCHEMA_STATEMENTS == 4,
        statements[0]@
            == "CREATE NODE TABLE User (id INT64, name STRING, age INT64, PRIMARY KEY(id))"@,
        statements[1]@
            == "CREATE NODE TABLE City (id INT64, name STRING, population INT64, PRIMARY KEY(id))"@,
        statements[2]@
            == "CREATE REL TABLE Follows (FROM User TO User, since INT64)"@,
        statements[3]@
            == "CREATE REL TABLE LivesIn (FROM User TO City)"@,
        statements[4]@
            == "CREATE (u:User {id: 1, name: 'Alice', age: 30})"@,
        statements[5]@
            == "CREATE (u:User {id: 2, name: 'Bob', age: 25})"@,
        statements[6]@
            == "CREATE (u:User {id: 3, name: 'Carol', age: 35})"@,
        statements[7]@
            == "CREATE (u:User {id: 4, name: 'Dave', age: 28})"@,
        statements[8]@
            == "CREATE (u:User {id: 5, name: 'Eve', age: 22})"@,
        statements[9]@
            == "CREATE (c:City {id: 1, name: 'San Francisco', population: 874961})"@,
        statements[10]@
            == "CREATE (c:City {id: 2, name: 'New York', population: 8336817})"@,
        statements[11]@
            == "CREATE (c:City {id: 3, name: 'Chicago', population: 2693976})"@,
        statements[12]@
            == "MATCH (a:User {id:1}), (b:User {id:2}) CREATE (a)-[:Follows {since: 2020}]->(b)"@,
        statements[13]@
            == "MATCH (a:User {id:1}), (b:User {id:3}) CREATE (a)-[:Follows {since: 2021}]->(b)"@,
        statements[14]@
            == "MATCH (a:User {id:2}), (b:User {id:4}) CREATE (a)-[:Follows {since: 2022}]->(b)"@,
        statements[15]@
            == "MATCH (a:User {id:3}), (b:User {id:5}) CREATE (a)-[:Follows {since: 2023}]->(b)"@,
        statements[16]@
            == "MATCH (a:User {id:4}), (b:User {id:1}) CREATE (a)-[:Follows {since: 2021}]->(b)"@,
        statements[17]@
            == "MATCH (a:User {id:5}), (b:User {id:2}) CREATE (a)-[:Follows {since: 2024}]->(b)"@,
        statements[18]@
            == "MATCH (u:User {id:1}), (c:City {id:1}) CREATE (u)-[:LivesIn]->(c)"@,
        statements[19]@
            == "MATCH (u:User {id:2}), (c:City {id:2}) CREATE (u)-[:LivesIn]->(c)"@,
        statements[20]@
            == "MATCH (u:User {id:3}), (c:City {id:1}) CREATE (u)-[:LivesIn]->(c)"@,
        statements[21]@
            == "MATCH (u:User {id:4}), (c:City {id:3}) CREATE (u)-[:LivesIn]->(c)"@,
        statements[22]@
            == "MATCH (u:User {id:5}), (c:City {id:2}) CREATE (u)-[:LivesIn]->(c)"@,
{
    let shown = statements.deep_view();
    assert(shown.len() == statements.len());
    assert(forall|i: int| 0 <= i < shown.len() ==> #[trigger] shown[i] == statements[i]@);
    assert(shown[0] == statements[0]@);
    assert(shown[1] == statements[1]@);
    assert(shown[2] == statements[2]@);
    assert(shown[3] == statements[3]@);
    assert(shown[4] == statements[4]@);
    assert(shown[5] == statements[5]@);
    assert(shown[6] == statements[6]@);
    assert(shown[7] == statements[7]@);
    assert(shown[8] == statements[8]@);
    assert(shown[9] == statements[9]@);
    assert(shown[10] == statements[10]@);
    assert(shown[11] == statements[11]@);
    assert(shown[12] == statements[12]@);
    assert(shown[13] == statements[13]@);
    assert(shown[14] == statements[14]@);
    assert(shown[15] == statements[15]@);
    assert(shown[16] == statements[16]@);
    assert(shown[17] == statements[17]@);
    assert(shown[18] == statements[18]@);
    assert(shown[19] == statements[19]@);
    assert(shown[20] == statements[20]@);
    assert(shown[21] == statements[21]@);
    assert(shown[22] == statements[22]@);
    user_statement_texts();
    city_statement_texts();
    follows_statement_texts();
    lives_in_statement_texts();
}

/// The demo queries, in full and in order, each with its label.
pub proof fn queries_in_full(queries: Vec<(&'static str, &'static str)>)
    requires
        call_ensures(demo_queries, (), queries),
    ensures
        queries.len() == 6,
        queries[0].0@ == "all_users"@,
        queries[0].1@
            == "MATCH (u:User) RETURN u.name, u.age ORDER BY u.id"@,
        queries[1].0@ == "follows"@,
        queries[1].1@
            == "MATCH (a:User)-[f:Follows]->(b:User) RETURN a.name AS follower, b.name AS followed, f.since ORDER BY f.since"@,
        queries[2].0@ == "lives_in"@,
        queries[2].1@
            == "MATCH (u:User)-[:LivesIn]->(c:City) RETURN u.name, c.name AS city ORDER BY u.name"@,
        queries[3].0@ == "sf_users"@,
        queries[3].1@
            == "MATCH (u:User)-[:LivesIn]->(c:City {name: 'San Francisco'}) RETURN u.name, u.age"@,
        queries[4].0@ == "two_hop_from_alice"@,
        queries[4].1@
            == "MATCH (a:User {name: 'Alice'})-[:Follows]->(b:User)-[:Follows]->(c:User) RETURN a.name AS start, b.name AS via, c.name AS reached"@,
        queries[5].0@ == "same_city_follows"@,
        queries[5].1@
            == "MATCH (a:User)-[:Follows]->(b:User), (a)-[:LivesIn]->(c:City)<-[:LivesIn]-(b) RETURN a.name AS user, b.name AS follows, c.name AS shared_city"@,
{
    let shown = queries.deep_view();
    assert(shown.len() == queries.len());
    assert(shown[0] == queries[0].deep_view());
    assert(shown[1] == queries[1].deep_view());
    assert(shown[2] == queries[2].deep_view());
    assert(shown[3] == queries[3].deep_view());
    assert(shown[4] == queries[4].deep_view());
    assert(shown[5] == queries[5].deep_view());
}

/// The labels of the demo queries differ, also from the word for all of them.
proof fn lemma_labels()
    ensures
        "all_users"@.len() == 9,
        "follows"@.len() == 7,
        "lives_in"@.len() == 8,
        "sf_users"@.len() == 8,
        "two_hop_from_alice"@.len() == 18,
        "same_city_follows"@.len() == 17,
        "lives_in"@[0] == 'l',
        "sf_users"@[0] == 's',
        "all"@.len() == 3,
{
    reveal_strlit("all_users");
    reveal_strlit("follows");
    reveal_strlit("lives_in");
    reveal_strlit("sf_users");
    reveal_strlit("two_hop_from_alice");
    reveal_strlit("same_city_follows");
    reveal_strlit("all");
}

/// What is run for a selection: every demo query for "all"; for a label the
/// query with that label alone, under it; and for any other text that text as
/// the query, under itself.
pub proof fn selection_is_run(
    selection: &str,
    r: Vec<(String, String)>,
    queries: Vec<(&'static str, &'static str)>,
    i: int,
)
    requires
        call_ensures(select_queries, (selection,), r),
        call_ensures(demo_queries, (), queries),
    ensures
        selection@ == "all"@ && 0 <= i < queries.len() ==> r.len() == queries.len() && r[i].0@
            == queries[i].0@ && r[i].1@ == queries[i].1@,
        0 <= i < queries.len() && selection@ == queries[i].0@ ==> r.len() == 1 && r[0].0@
            == selection@ && r[0].1@ == queries[i].1@,
        selection@ != "all"@ && (forall|k: int|
            0 <= k < queries.len() ==> selection@ != (#[trigger] queries[k]).0@) ==> r.len() == 1
            && r[0].0@ == selection@ && r[0].1@ == selection@,
{
    let texts = demo_query_texts();
    let shown = r.deep_view();
    assert(queries.deep_view().len() == queries.len());
    assert(shown.len() == r.len());
    assert(forall|k: int| 0 <= k < queries.len() ==> #[trigger] texts[k] == queries[k].deep_view());
    assert(forall|k: int| 0 <= k < r.len() ==> #[trigger] shown[k] == r[k].deep_view());
    if 0 <= i < queries.len() {
        assert(texts[i] == queries[i].deep_view());
    }
    if shown.len() > 0 {
        assert(shown[0] == r[0].deep_view());
    }
    if 0 <= i < r.len() {
        assert(shown[i] == r[i].deep_view());
    }
    lemma_labels();
    if selection@ != "all"@ {
        if 0 <= i < queries.len() && selection@ == queries[i].0@ {
            lemma_labelled(texts, i);
        } else if forall|k: int|
            0 <= k < queries.len() ==> selection@ != (#[trigger] queries[k]).0@ {
            assert forall|k: int| 0 <= k < texts.len() implies (#[trigger] texts[k]).0
                != selection@ by {
                assert(texts[k] == queries[k].deep_view());
            }
            lemma_unlabelled(texts, selection@);
        }
    }
}

/// The query with a label is found where no query in front has the same.
proof fn lemma_labelled(queries: Seq<(Seq<char>, Seq<char>)>, i: int)
    requires
        0 <= i < queries.len(),
        forall|k: int| 0 <= k < i ==> (#[trigger] queries[k]).0 != queries[i].0,
    ensures
        labelled(queries, queries[i].0) == queries[i].1,
    decreases queries.len(),
{
    if i > 0 {
        let tail = queries.drop_first();
        assert(queries[0].0 != queries[i].0);
        assert forall|k: int| 0 <= k < i - 1 implies (#[trigger] tail[k]).0 != tail[i - 1].0 by {
            assert(tail[k] == queries[k + 1]);
        }
        lemma_labelled(tail, i - 1);
    }
}

/// A label that no query has stands for itself.
proof fn lemma_unlabelled(queries: Seq<(Seq<char>, Seq<char>)>, label: Seq<char>)
    requires
        forall|k: int| 0 <= k < queries.len() ==> (#[trigger] queries[k]).0 != label,
    ensures
        labelled(queries, label) == label,
    decreases queries.len(),
{
    if queries.len() > 0 {
        let tail = queries.drop_first();
        assert(queries[0].0 != label);
        assert forall|k: int| 0 <= k < tail.len() implies (#[trigger] tail[k]).0 != label by {
            assert(tail[k] == queries[k + 1]);
        }
        lemma_unlabelled(tail, label);
    }
}

/// The list of the demo queries has a line for each of them, in order: its
/// label, a colon and a space, and its text.
pub proof fn list_has_every_query(r: String, queries: Vec<(&'static str, &'static str)>)
    requires
        call_ensures(list_queries_text, (), r),
        call_ensures(demo_queries, (), queries),
    ensures
        r@ == (queries[0].0@ + ": "@ + queries[0].1@) + "\n"@ + (queries[1].0@ + ": "@
            + queries[1].1@) + "\n"@ + (queries[2].0@ + ": "@ + queries[2].1@) + "\n"@ + (
        queries[3].0@ + ": "@ + queries[3].1@) + "\n"@ + (queries[4].0@ + ": "@ + queries[4].1@)
            + "\n"@ + (queries[5].0@ + ": "@ + queries[5].1@),
{
    let texts = demo_query_texts();
    let lines = query_lines(texts);
    let shown = queries.deep_view();
    assert(shown.len() == queries.len());
    assert(shown[0] == queries[0].deep_view());
    assert(shown[1] == queries[1].deep_view());
    assert(shown[2] == queries[2].deep_view());
    assert(shown[3] == queries[3].deep_view());
    assert(shown[4] == queries[4].deep_view());
    assert(shown[5] == queries[5].deep_view());
    lemma_six_lines(lines, "\n"@);
    assert(lines[0] == queries[0].0@ + ": "@ + queries[0].1@);
    assert(lines[1] == queries[1].0@ + ": "@ + queries[1].1@);
    assert(lines[2] == queries[2].0@ + ": "@ + queries[2].1@);
    assert(lines[3] == queries[3].0@ + ": "@ + queries[3].1@);
    assert(lines[4] == queries[4].0@ + ": "@ + queries[4].1@);
    assert(lines[5] == queries[5].0@ + ": "@ + queries[5].1@);
}

/// Six lines that are joined.
proof fn lemma_six_lines(lines: Seq<Seq<char>>, sep: Seq<char>)
    requires
        lines.len() == 6,
    ensures
        text::joined(lines, sep) == lines[0] + sep + lines[1] + sep + lines[2] + sep + lines[3]
            + sep + lines[4] + sep + lines[5],
{
    let five = lines.drop_last();
    let four = five.drop_last();
    let three = four.drop_last();
    let two = three.drop_last();
    let one = two.drop_last();
    assert(text::joined(one, sep) == lines[0]);
    assert(text::joined(two, sep) == text::joined(one, sep) + sep + lines[1]);
    assert(text::joined(three, sep) == text::joined(two, sep) + sep + lines[2]);
    assert(text::joined(four, sep) == text::joined(three, sep) + sep + lines[3]);
    assert(text::joined(five, sep) == text::joined(four, sep) + sep + lines[4]);
}

/// A message says that something is there already where it holds one of two
/// phrases, whatever stands in front and behind, and only there.
pub proof fn existing_is_said(lowered: &str, r: bool, before: Seq<char>, after: Seq<char>)
    requires
        call_ensures(reports_existing, (lowered,), r),
    ensures
        lowered@ == before + "already exists"@ + after ==> r,
        lowered@ == before + "duplicate"@ + after ==> r,
        r ==> exists|i: int, j: int|
            0 <= i <= j <= lowered@.len() && (#[trigger] lowered@.subrange(i, j)
                == "already exists"@ || lowered@.subrange(i, j) == "duplicate"@),
{
    let n = before.len() as int;
    if lowered@ == before + "already exists"@ + after {
        assert(lowered@.subrange(n, n + "already exists"@.len()) =~= "already exists"@);
        assert(text::occurs_at(lowered@, "already exists"@, n));
    }
    if lowered@ == before + "duplicate"@ + after {
        assert(lowered@.subrange(n, n + "duplicate"@.len()) =~= "duplicate"@);
        assert(text::occurs_at(lowered@, "duplicate"@, n));
    }
    if text::contains(lowered@, "already exists"@) {
        let i = choose|i: int| text::occurs_at(lowered@, "already exists"@, i);
        assert(lowered@.subrange(i, i + "already exists"@.len()) == "already exists"@);
    } else if text::contains(lowered@, "duplicate"@) {
        let i = choose|i: int| text::occurs_at(lowered@, "duplicate"@, i);
        assert(lowered@.subrange(i, i + "duplicate"@.len()) == "duplicate"@);
    }
}

/// A load goes on after a statement that was run. After one that failed it goes
/// on where the statement adds a row, or where the failure says that the table
/// is there already; else it stops there, with the message of the failure.
pub proof fn load_goes_on(
    load: &mut DemoLoad,
    outcome: Result<(), String>,
    r: Result<(), String>,
)
    requires
        call_ensures(DemoLoad::record, (load, outcome), r),
    ensures
        outcome is Ok ==> r is Ok,
        4 <= old(load).done() ==> r is Ok,
        outcome matches Err(message) ==> old(load).done() < 4 ==> {
            let lowered = text::lowercase_text(message@);
            &&& r is Ok <==> text::contains(lowered, "already exists"@) || text::contains(
                lowered,
                "duplicate"@,
            )
            &&& r matches Err(e) ==> e@ == message@
        },
        r is Ok ==> final(load).done() == old(load).done() + 1,
        r is Err ==> final(load).done() == old(load).done(),
{
}

/// A load runs the statements of the demo graph, from the first on, each once.
pub proof fn load_runs_every_statement(
    load: &DemoLoad,
    next: Option<String>,
    started: DemoLoad,
    statements: Vec<String>,
)
    requires
        load.wf(),
        call_ensures(DemoLoad::next, (load,), next),
        call_ensures(DemoLoad::start, (), started),
        call_ensures(demo_statements, (), statements),
    ensures
        started.wf() && started.done() == 0,
        next is Some <==> load.done() < 23,
        next matches Some(statement) ==> statement@ == statements[load.done() as int]@,
{
    let shown = statements.deep_view();
    assert(shown.len() == statements.len());
    if load.done() < 23 {
        assert(shown[load.done() as int] == statements[load.done() as int]@);
    }
}

} // verus!
