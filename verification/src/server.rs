use vstd::prelude::*;
use vstd::string::*;
use crate::error::Error;
use crate::http::inserted;
use crate::http::protocol::{Request, Response, ResponseSpec};
use crate::http::codes::HTTPStatus;
use crate::php::{PHPOptions, PHP};
use crate::service::M_BYTE;
use crate::utils::copy_bytes;

verus! {

/// Headers that the configuration adds to every response.
#[derive(Debug)]
pub struct HeaderOptions {
    pub content_security_policy: Option<Vec<u8>>,
}

/// The configuration of a server. Every field may be left out.
#[derive(Debug)]
pub struct CreeOptions {
    pub port: Option<u16>,
    pub enable_php: Option<bool>,
    pub root_directory: Option<Vec<u8>>,
    pub php_path: Option<Vec<u8>>,
    pub use_compression: Option<bool>,
    pub pc_chunk_size: Option<usize>,
    pub headers: Option<HeaderOptions>,
}

impl CreeOptions {
    /// The configuration that leaves everything out.
    pub fn get_default() -> (o: CreeOptions)
        ensures
            o.port is None,
            o.enable_php is None,
            o.root_directory is None,
            o.php_path is None,
            o.use_compression is None,
            o.pc_chunk_size is None,
            o.headers is None,
    {
        CreeOptions {
            port: None,
            enable_php: None,
            root_directory: None,
            php_path: None,
            use_compression: None,
            pc_chunk_size: None,
            headers: None,
        }
    }

    /// The port to serve on: the one of the command line, else the one of
    /// the configuration, else 80.
    pub fn effective_port(&self, command_line: Option<u16>) -> (port: u16)
        ensures
            port == match command_line {
                Some(p) => p,
                None => match self.port {
                    Some(p) => p,
                    None => 80u16,
                },
            },
    {
        match command_line {
            Some(p) => p,
            None => match self.port {
                Some(p) => p,
                None => 80,
            },
        }
    }

    /// Whether bodies are compressed: yes, unless the configuration says no.
    pub fn compression(&self) -> (on: bool)
        ensures
            on == match self.use_compression {
                Some(b) => b,
                None => true,
            },
    {
        match self.use_compression {
            Some(b) => b,
            None => true,
        }
    }

    /// The most bytes that are served of a range without an end: one
    /// mebibyte, unless the configuration says otherwise.
    pub fn chunk_size(&self) -> (n: usize)
        ensures
            n == match self.pc_chunk_size {
                Some(n) => n,
                None => M_BYTE,
            },
    {
        match self.pc_chunk_size {
            Some(n) => n,
            None => M_BYTE,
        }
    }
}

/// A server: the directory that it serves and its configuration.
#[derive(Debug)]
pub struct CreeServer {
    pub root_dir: Vec<u8>,
    pub options: CreeOptions,
}

/// The static-file service of a server.
#[derive(Debug)]
pub struct CreeService {
    pub root_dir: Vec<u8>,
    pub options: CreeOptions,
    pub php_handle: Option<PHP>,
}

/// The headers that every response of the service starts with: `Server`,
/// and `Content-Security-Policy` where the configuration has one.
pub open spec fn service_headers(policy: Option<Seq<u8>>) -> Seq<(Seq<u8>, Seq<u8>)> {
    let served = inserted(Seq::empty(), "Server".spec_bytes(), "Cree".spec_bytes());
    match policy {
        Some(p) => inserted(served, "Content-Security-Policy".spec_bytes(), p),
        None => served,
    }
}

impl CreeService {
    /// The policy that the configuration gives.
    pub open spec fn policy(&self) -> Option<Seq<u8>> {
        match self.options.headers {
            Some(h) => match h.content_security_policy {
                Some(p) => Some(p@),
                None => None,
            },
            None => None,
        }
    }

    /// The service over a directory. Where the configuration turns scripts
    /// on, it must name the interpreter: code 3000 where it does not.
    pub fn new(root_dir: &[u8], options: CreeOptions) -> (r: Result<CreeService, Error>)
        ensures
            r is Ok <==> !(options.enable_php == Some(true) && options.php_path is None),
            r matches Ok(s) ==> s.root_dir@ == root_dir@ && s.options == options && (s.php_handle
                is Some <==> options.enable_php == Some(true)) && (s.php_handle matches Some(php)
                ==> php.interpreter_path@ == options.php_path->0@),
            r matches Err(e) ==> e.code == 3000,
    {
        let php_handle = match options.enable_php {
            Some(true) => {
                let php_options = PHPOptions {
                    php_path: match &options.php_path {
                        Some(p) => Some(copy_bytes(p.as_slice())),
                        None => None,
                    },
                };
                Some(PHP::setup(&php_options)?)
            },
            _ => None,
        };
        Ok(CreeService { root_dir: copy_bytes(root_dir), options, php_handle })
    }

    /// A blank response to a request, with the headers that are known in
    /// advance.
    pub fn blank_response(&self, request: Request) -> (res: Response)
        ensures
            res@ == (ResponseSpec {
                req: request@,
                sent: false,
                body: Seq::empty(),
                headers: service_headers(self.policy()),
                status: HTTPStatus::Accepted,
            }),
            res.wf(),
    {
        let mut res = Response::new(request);
        res.set_header("Server".as_bytes(), "Cree".as_bytes());
        match &self.options.headers {
            Some(headers) => match &headers.content_security_policy {
                Some(policy) => {
                    res.set_header("Content-Security-Policy".as_bytes(), policy.as_slice());
                },
                None => {},
            },
            None => {},
        }
        res
    }
}

} // verus!
