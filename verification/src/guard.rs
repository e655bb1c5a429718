//! Read-only SQL guard for the SQL escape hatch of the agent session.
//!
//! The guard accepts only a single statement whose first keyword is on an
//! allow-list, restricts `CREATE` to temporary tables/views and `SET` to
//! session variables, and rejects any statement containing a denied token
//! (writes, attach, copy, export, extension installs/loads). When in doubt it
//! rejects.

use vstd::prelude::*;
use crate::text::{
    chars_of, contains, contains_char, contains_seq, eq_str, first_word, first_word_of, has_prefix,
    push_all, push_str, starts_with, string_of, trim, trim_end_char, trim_end_matches, trim_seq,
};

verus! {

/// Unicode upper-case mapping of a string, as `str::to_uppercase` computes it.
pub uninterp spec fn uppercase(s: Seq<char>) -> Seq<char>;

/// `str::to_uppercase`: the upper-case form of `s` under Unicode case mapping.
#[verifier::external_body]
fn to_uppercase(s: &str) -> (r: String)
    ensures
        r@ == uppercase(s@),
{
    s.to_uppercase()
}

/// Statement keywords a read-only session may start with.
pub open spec fn allowed_first(w: Seq<char>) -> bool {
    w == "SELECT"@ || w == "WITH"@ || w == "DESCRIBE"@ || w == "EXPLAIN"@ || w == "SHOW"@
        || w == "PRAGMA"@ || w == "VALUES"@ || w == "FROM"@ || w == "TABLE"@ || w == "SET"@
        || w == "CREATE"@
}

/// Tokens that never occur in an accepted statement, in the order they are checked.
pub open spec fn denied_tokens() -> Seq<Seq<char>> {
    seq![
        "INSTALL "@, "ATTACH "@, "COPY "@, "EXPORT "@, "INSERT "@, "UPDATE "@, "DELETE "@,
        "DROP "@, "ALTER "@, "LOAD "@,
    ]
}

/// Index of the first denied token contained in `upper`, if any.
pub open spec fn first_denied(upper: Seq<char>, i: int) -> Option<int>
    decreases 10 - i,
{
    if i < 0 || i >= 10 {
        None
    } else if contains_seq(upper, denied_tokens()[i]) {
        Some(i)
    } else {
        first_denied(upper, i + 1)
    }
}

/// The statement after trimming white space and trailing semicolons.
pub open spec fn statement_of(sql: Seq<char>) -> Seq<char> {
    trim_seq(trim_end_char(trim_seq(sql), ';'))
}

/// Why `sql` is refused, or `None` when it is an accepted read-only statement.
pub open spec fn read_only_violation(sql: Seq<char>) -> Option<Seq<char>> {
    let t = statement_of(sql);
    let upper = uppercase(t);
    let first = first_word(upper);
    if t.len() == 0 {
        Some("empty statement"@)
    } else if t.contains(';') {
        Some("only a single statement is allowed"@)
    } else if !allowed_first(first) {
        Some("statement type '"@ + first + "' is not permitted (read-only session)"@)
    } else if first == "CREATE"@ && !(contains_seq(upper, "TEMP TABLE"@) || contains_seq(
        upper,
        "TEMPORARY TABLE"@,
    ) || contains_seq(upper, "TEMP VIEW"@) || contains_seq(upper, "TEMPORARY VIEW"@)) {
        Some("CREATE is only allowed for TEMP tables/views"@)
    } else if first == "SET"@ && !has_prefix(upper, "SET VARIABLE"@) {
        Some("only SET VARIABLE is allowed"@)
    } else {
        match first_denied(upper, 0) {
            Some(i) => Some("token '"@ + trim_seq(denied_tokens()[i]) + "' is not permitted"@),
            None => None,
        }
    }
}

/// A read-only statement keyword, as the query tool documents it.
pub open spec fn read_only_keyword(w: Seq<char>) -> bool {
    w == "SELECT"@ || w == "WITH"@ || w == "DESCRIBE"@ || w == "EXPLAIN"@ || w == "SHOW"@
        || w == "PRAGMA"@ || w == "VALUES"@ || w == "FROM"@ || w == "TABLE"@
}

/// `upper` holds none of the tokens of writes, attaches, copies, exports and
/// extension installs or loads.
pub open spec fn no_write_token(upper: Seq<char>) -> bool {
    &&& !contains_seq(upper, "INSTALL "@)
    &&& !contains_seq(upper, "ATTACH "@)
    &&& !contains_seq(upper, "COPY "@)
    &&& !contains_seq(upper, "EXPORT "@)
    &&& !contains_seq(upper, "INSERT "@)
    &&& !contains_seq(upper, "UPDATE "@)
    &&& !contains_seq(upper, "DELETE "@)
    &&& !contains_seq(upper, "DROP "@)
    &&& !contains_seq(upper, "ALTER "@)
    &&& !contains_seq(upper, "LOAD "@)
}

/// Every single read-only statement is let through: once white space and
/// trailing `;` are trimmed, a non-empty statement with no other `;`, whose
/// first word (upper-cased) is SELECT, WITH, DESCRIBE, EXPLAIN, SHOW, PRAGMA,
/// VALUES, FROM or TABLE and which holds no write token, is accepted.
pub proof fn lemma_read_only_statements_pass(sql: Seq<char>)
    requires
        statement_of(sql).len() > 0,
        !statement_of(sql).contains(';'),
        read_only_keyword(first_word(uppercase(statement_of(sql)))),
        no_write_token(uppercase(statement_of(sql))),
    ensures
        read_only_violation(sql) is None,
{
    reveal_strlit("SELECT");
    reveal_strlit("WITH");
    reveal_strlit("DESCRIBE");
    reveal_strlit("EXPLAIN");
    reveal_strlit("SHOW");
    reveal_strlit("PRAGMA");
    reveal_strlit("VALUES");
    reveal_strlit("FROM");
    reveal_strlit("TABLE");
    reveal_strlit("SET");
    reveal_strlit("CREATE");
    let upper = uppercase(statement_of(sql));
    let first = first_word(upper);
    assert(first != "CREATE"@ && first != "SET"@) by {
        if first == "CREATE"@ || first == "SET"@ {
            assert(first.len() == 6 || first.len() == 3);
            assert(first[0] == 'C' || first[0] == 'S');
            assert(first[1] == 'R' || first[1] == 'E');
        }
    }
    assert(allowed_first(first));
    reveal_with_fuel(first_denied, 11);
    assert(first_denied(upper, 0) is None);
}

/// No write gets through: a statement that holds a write token (a write,
/// attach, copy, export or an extension install or load), or a second
/// statement after a `;`, or that is empty, is refused.
pub proof fn lemma_writes_refused(sql: Seq<char>)
    requires
        statement_of(sql).len() == 0 || statement_of(sql).contains(';') || !no_write_token(
            uppercase(statement_of(sql)),
        ),
    ensures
        read_only_violation(sql) is Some,
{
    reveal_with_fuel(first_denied, 11);
    reveal_strlit("INSTALL ");
    reveal_strlit("ATTACH ");
    reveal_strlit("COPY ");
    reveal_strlit("EXPORT ");
    reveal_strlit("INSERT ");
    reveal_strlit("UPDATE ");
    reveal_strlit("DELETE ");
    reveal_strlit("DROP ");
    reveal_strlit("ALTER ");
    reveal_strlit("LOAD ");
    let upper = uppercase(statement_of(sql));
    let d = denied_tokens();
    assert(d[0] == "INSTALL "@ && d[1] == "ATTACH "@ && d[2] == "COPY "@ && d[3] == "EXPORT "@
        && d[4] == "INSERT "@ && d[5] == "UPDATE "@ && d[6] == "DELETE "@ && d[7] == "DROP "@
        && d[8] == "ALTER "@ && d[9] == "LOAD "@);
    if statement_of(sql).len() > 0 && !statement_of(sql).contains(';') {
        assert(first_denied(upper, 0) is Some);
    }
}

fn denied_token(i: usize) -> (r: &'static str)
    requires
        i < 10,
    ensures
        r@ == denied_tokens()[i as int],
{
    if i == 0 { "INSTALL " }
    else if i == 1 { "ATTACH " }
    else if i == 2 { "COPY " }
    else if i == 3 { "EXPORT " }
    else if i == 4 { "INSERT " }
    else if i == 5 { "UPDATE " }
    else if i == 6 { "DELETE " }
    else if i == 7 { "DROP " }
    else if i == 8 { "ALTER " }
    else { "LOAD " }
}

/// Validate that `sql` is a safe, read-only / temp-only single statement.
#[verifier::loop_isolation(false)]
pub fn ensure_read_only(sql: &str) -> (r: Result<(), String>)
    ensures
        r is Ok <==> read_only_violation(sql@) is None,
        r matches Err(e) ==> Some(e@) == read_only_violation(sql@),
{
    let raw = chars_of(sql);
    let t0 = trim(raw.as_slice());
    let t1 = trim_end_matches(t0.as_slice(), ';');
    let t = trim(t1.as_slice());
    if t.len() == 0 {
        return Err(String::from_str("empty statement"));
    }
    if contains_char(t.as_slice(), ';') {
        return Err(String::from_str("only a single statement is allowed"));
    }
    let ts = string_of(t.as_slice());
    let upper_s = to_uppercase(ts.as_str());
    let upper = chars_of(upper_s.as_str());
    let u = upper.as_slice();
    let first = first_word_of(u);
    let f = first.as_slice();
    let allowed = eq_str(f, "SELECT") || eq_str(f, "WITH") || eq_str(f, "DESCRIBE") || eq_str(f, "EXPLAIN")
        || eq_str(f, "SHOW") || eq_str(f, "PRAGMA") || eq_str(f, "VALUES") || eq_str(f, "FROM")
        || eq_str(f, "TABLE") || eq_str(f, "SET") || eq_str(f, "CREATE");
    if !allowed {
        let mut msg: Vec<char> = Vec::new();
        push_str(&mut msg, "statement type '");
        push_all(&mut msg, f);
        push_str(&mut msg, "' is not permitted (read-only session)");
        return Err(string_of(msg.as_slice()));
    }
    if eq_str(f, "CREATE") {
        let temp = contains(u, chars_of("TEMP TABLE").as_slice()) || contains(
            u,
            chars_of("TEMPORARY TABLE").as_slice(),
        ) || contains(u, chars_of("TEMP VIEW").as_slice()) || contains(
            u,
            chars_of("TEMPORARY VIEW").as_slice(),
        );
        if !temp {
            return Err(String::from_str("CREATE is only allowed for TEMP tables/views"));
        }
    }
    if eq_str(f, "SET") && !starts_with(u, chars_of("SET VARIABLE").as_slice()) {
        return Err(String::from_str("only SET VARIABLE is allowed"));
    }
    let mut i: usize = 0;
    while i < 10
        invariant
            i <= 10,
            upper@ == uppercase(t@),
            first_denied(upper@, 0) == first_denied(upper@, i as int),
        decreases 10 - i,
    {
        let tok = chars_of(denied_token(i));
        if contains(u, tok.as_slice()) {
            let word = trim(tok.as_slice());
            let mut msg: Vec<char> = Vec::new();
            push_str(&mut msg, "token '");
            push_all(&mut msg, word.as_slice());
            push_str(&mut msg, "' is not permitted");
            return Err(string_of(msg.as_slice()));
        }
        i = i + 1;
    }
    Ok(())
}

} // verus!
