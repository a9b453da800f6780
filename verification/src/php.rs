use vstd::prelude::*;
use vstd::string::*;
use crate::error::Error;
use crate::text::{decimal, decimal_bytes};
use crate::utils::{bytes_equal, copy_bytes};

verus! {

/// A script interpreter that is handed requests in the CGI manner.
#[derive(Debug)]
pub struct PHP {
    pub interpreter_path: Vec<u8>,
}

pub struct PHPOptions {
    pub php_path: Option<Vec<u8>>,
}

/// What a request gives to the interpreter.
pub struct PHPVariables {
    pub request_method: Vec<u8>,
    pub post_data: Option<Vec<u8>>,
    pub content_type: Option<Vec<u8>>,
    pub content_length: Option<usize>,
    pub remote_addr: Vec<u8>,
    pub query_string: Vec<u8>,
    pub document_root: Vec<u8>,
    pub http_host: Vec<u8>,
    pub request_protocol: Vec<u8>,
    pub request_uri: Vec<u8>,
}

/// A variable of the environment.
pub open spec fn variable(name: &str, value: Seq<u8>) -> (Seq<u8>, Seq<u8>) {
    (name.spec_bytes(), value)
}

/// The environment in which the interpreter runs a script: eleven variables
/// that are always there, then `CONTENT_LENGTH` and `CONTENT_TYPE` where the
/// request has them, then `HTTP_HOST`.
pub open spec fn environment_of(
    script_filename: Seq<u8>,
    script_name: Seq<u8>,
    v: PHPVariables,
) -> Seq<(Seq<u8>, Seq<u8>)> {
    seq![
        variable("REDIRECT_STATUS", "true".spec_bytes()),
        variable("REQUEST_METHOD", v.request_method@),
        variable("SCRIPT_FILENAME", script_filename),
        variable("SCRIPT_NAME", script_name),
        variable("SERVER_NAME", v.http_host@),
        variable("SERVER_PROTOCOL", v.request_protocol@),
        variable("REQUEST_URI", v.request_uri@),
        variable("SERVER_SOFTWARE", "Cree".spec_bytes()),
        variable("REMOTE_ADDR", v.remote_addr@),
        variable("DOCUMENT_ROOT", v.document_root@),
        variable("QUERY_STRING", v.query_string@),
    ] + (match v.content_length {
        Some(n) => seq![variable("CONTENT_LENGTH", decimal(n as nat))],
        None => Seq::empty(),
    }) + (match v.content_type {
        Some(t) => seq![variable("CONTENT_TYPE", t@)],
        None => Seq::empty(),
    }) + seq![variable("HTTP_HOST", v.http_host@)]
}

/// The bytes of each variable.
pub open spec fn environment_view(env: Seq<(Vec<u8>, Vec<u8>)>) -> Seq<(Seq<u8>, Seq<u8>)> {
    env.map_values(|e: (Vec<u8>, Vec<u8>)| (e.0@, e.1@))
}

fn push_variable(env: &mut Vec<(Vec<u8>, Vec<u8>)>, name: &str, value: &[u8])
    ensures
        environment_view(final(env)@) == environment_view(old(env)@).push(variable(name, value@)),
{
    env.push((copy_bytes(name.as_bytes()), copy_bytes(value)));
    proof {
        assert(environment_view(final(env)@) =~= environment_view(old(env)@).push(
            variable(name, value@),
        ));
    }
}

impl PHP {
    /// The interpreter at the configured path. Code 3000 where none is
    /// configured.
    pub fn setup(options: &PHPOptions) -> (r: Result<PHP, Error>)
        ensures
            r is Ok <==> options.php_path is Some,
            r matches Ok(php) ==> php.interpreter_path@ == options.php_path->0@,
            r matches Err(e) ==> e.code == 3000,
    {
        match &options.php_path {
            Some(php_path) => Ok(PHP { interpreter_path: copy_bytes(php_path.as_slice()) }),
            None => Err(Error::new("PHP setup failed.", 3000)),
        }
    }

    /// The environment for one run. See [`environment_of`].
    pub fn environment(&self, script_filename: &[u8], script_name: &[u8], variables: &PHPVariables) -> (env:
        Vec<(Vec<u8>, Vec<u8>)>)
        ensures
            environment_view(env@) == environment_of(script_filename@, script_name@, *variables),
    {
        let mut env: Vec<(Vec<u8>, Vec<u8>)> = Vec::new();
        proof {
            assert(environment_view(env@) =~= Seq::<(Seq<u8>, Seq<u8>)>::empty());
        }
        push_variable(&mut env, "REDIRECT_STATUS", "true".as_bytes());
        push_variable(&mut env, "REQUEST_METHOD", variables.request_method.as_slice());
        push_variable(&mut env, "SCRIPT_FILENAME", script_filename);
        push_variable(&mut env, "SCRIPT_NAME", script_name);
        push_variable(&mut env, "SERVER_NAME", variables.http_host.as_slice());
        push_variable(&mut env, "SERVER_PROTOCOL", variables.request_protocol.as_slice());
        push_variable(&mut env, "REQUEST_URI", variables.request_uri.as_slice());
        push_variable(&mut env, "SERVER_SOFTWARE", "Cree".as_bytes());
        push_variable(&mut env, "REMOTE_ADDR", variables.remote_addr.as_slice());
        push_variable(&mut env, "DOCUMENT_ROOT", variables.document_root.as_slice());
        push_variable(&mut env, "QUERY_STRING", variables.query_string.as_slice());
        match variables.content_length {
            Some(n) => {
                let digits = decimal_bytes(n);
                push_variable(&mut env, "CONTENT_LENGTH", digits.as_slice());
            },
            None => {},
        }
        match &variables.content_type {
            Some(t) => {
                push_variable(&mut env, "CONTENT_TYPE", t.as_slice());
            },
            None => {},
        }
        push_variable(&mut env, "HTTP_HOST", variables.http_host.as_slice());
        proof {
            assert(environment_view(env@) =~= environment_of(
                script_filename@,
                script_name@,
                *variables,
            ));
        }
        env
    }

    /// What is written to the interpreter's standard input: the body of a
    /// POST request, and nothing for any other method. A POST request without
    /// a body is refused with code 2001.
    pub fn standard_input(variables: &PHPVariables) -> (r: Result<Option<Vec<u8>>, Error>)
        ensures
            r is Ok <==> !(variables.request_method@ == "POST".spec_bytes()
                && variables.post_data is None),
            r matches Ok(input) ==> if variables.request_method@ == "POST".spec_bytes() {
                input is Some && input->0@ == variables.post_data->0@
            } else {
                input is None
            },
            r matches Err(e) ==> e.code == 2001,
    {
        if bytes_equal(variables.request_method.as_slice(), "POST".as_bytes()) {
            match &variables.post_data {
                Some(data) => Ok(Some(copy_bytes(data.as_slice()))),
                None => Err(Error::new("Invalid request.", 2001)),
            }
        } else {
            Ok(None)
        }
    }
}

} // verus!
