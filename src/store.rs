//! Statements for the credential store, which maps keys to the display
//! names of their owners.
use vstd::prelude::*;
use vstd::string::StringExecFns;

verus! {

/// A parameterised SQL statement.
#[derive(Debug, Clone)]
pub struct SqlStatement {
    pub sql: String,
    pub params: Vec<String>,
}

impl SqlStatement {
    pub fn as_str(&self) -> (r: &str)
        ensures
            r@ == self.sql@,
    {
        self.sql.as_str()
    }

    pub fn params(&self) -> (r: &[String])
        ensures
            r@ == self.params@,
    {
        self.params.as_slice()
    }
}

/// The text of the statement that looks up the display name of a key.
pub open spec fn lookup_sql() -> Seq<char> {
    "SELECT name FROM server_info WHERE key = ?"@
}

/// The statement that looks up the display name registered for `key`.
pub fn credential_lookup(key: String) -> (r: SqlStatement)
    ensures
        r.sql@ == lookup_sql(),
        r.params@.len() == 1,
        r.params@[0]@ == key@,
{
    let mut params: Vec<String> = Vec::new();
    params.push(key);
    SqlStatement { sql: String::from_str("SELECT name FROM server_info WHERE key = ?"), params }
}

} // verus!
