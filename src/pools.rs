use crate::options::{get_option, keys_unique, option_value};
use vstd::prelude::*;
use vstd::string::*;

verus! {

/// When the planner may push joins into a data source.
#[derive(Debug)]
pub enum JoinPushDown {
    Disallow,
    /// Joins are pushed down among sources that share this context.
    AllowedFor(String),
}

/// Why a pool or connector could not be set up.
#[derive(Debug)]
pub enum Error {
    MissingConnectionString,
    MissingEndpointParameter,
}

/// The settings of an ODBC pool. The connection string is a secret: it is
/// never used as a join context.
#[derive(Debug)]
pub struct ODBCPool {
    pub params: Vec<(String, String)>,
    pub connection_string: String,
}

impl ODBCPool {
    /// Takes the pool's parameters; `odbc_connection_string` is required.
    pub fn new(params: Vec<(String, String)>) -> (r: Result<ODBCPool, Error>)
        requires
            keys_unique(params@),
        ensures
            r is Ok <==> option_value(params@, "odbc_connection_string"@) is Some,
            r matches Ok(p) ==> p.params == params && option_value(params@, "odbc_connection_string"@) == Some(p.connection_string@),
            r is Err ==> r matches Err(Error::MissingConnectionString),
    {
        let connection_string = match get_option(&params, "odbc_connection_string") {
            Some(v) => v.clone(),
            None => {
                return Err(Error::MissingConnectionString);
            },
        };
        Ok(ODBCPool { params, connection_string })
    }

    /// ODBC joins are never pushed down: the only context available is the
    /// connection string, which holds credentials.
    pub fn join_push_down(&self) -> (r: JoinPushDown)
        ensures
            r is Disallow,
    {
        JoinPushDown::Disallow
    }
}

/// The endpoint of a FlightSQL connector, which its parameters must give.
pub fn flightsql_endpoint(params: &Vec<(String, String)>) -> (r: Result<String, Error>)
    requires
        keys_unique(params@),
    ensures
        r is Ok <==> option_value(params@, "endpoint"@) is Some,
        r matches Ok(e) ==> option_value(params@, "endpoint"@) == Some(e@),
        r is Err ==> r matches Err(Error::MissingEndpointParameter),
{
    match get_option(params, "endpoint") {
        Some(v) => Ok(v.clone()),
        None => Err(Error::MissingEndpointParameter),
    }
}

/// The user name and password of a FlightSQL handshake, empty where the
/// secret does not give them.
pub fn flightsql_credentials(secret: &Vec<(String, String)>) -> (r: (String, String))
    requires
        keys_unique(secret@),
    ensures
        r.0@ == match option_value(secret@, "username"@) {
            Some(v) => v,
            None => Seq::empty(),
        },
        r.1@ == match option_value(secret@, "password"@) {
            Some(v) => v,
            None => Seq::empty(),
        },
{
    let user = match get_option(secret, "username") {
        Some(v) => v.clone(),
        None => String::new(),
    };
    let password = match get_option(secret, "password") {
        Some(v) => v.clone(),
        None => String::new(),
    };
    (user, password)
}

} // verus!
