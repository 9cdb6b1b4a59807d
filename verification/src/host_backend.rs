//! Which world host a run connects to, and with what settings.

use crate::cli::{Backend, Cli, WorldGenArg};
use vstd::prelude::*;
use vstd::string::*;

verus! {

/// Seconds that a remote request may take.
pub const REQUEST_TIMEOUT_SECS: u64 = 10;

/// Events that a subscription buffers.
pub const SUBSCRIBER_CAPACITY: usize = 256;

/// Settings of a connection to a server or a cluster member.
#[derive(Debug)]
pub struct RemotePlan {
    pub server_path: String,
    pub bind: String,
    pub system_name: String,
    pub request_timeout_secs: u64,
    pub subscriber_capacity: usize,
}

/// The host to build.
#[derive(Debug)]
pub enum BackendPlan {
    /// A host in this process. `ice` forces the frozen archetype on the whole
    /// world.
    Local { root_seed: u64, ice: bool },
    Remote(RemotePlan),
}

/// A plan that connects to `server_path`.
pub open spec fn connects(plan: BackendPlan, server_path: Seq<char>, bind: Seq<char>) -> bool {
    match plan {
        BackendPlan::Remote(p) => {
            &&& p.server_path@ == server_path
            &&& p.bind@ == bind
            &&& p.system_name@ == "atomr-worlds-client"@
            &&& p.request_timeout_secs == REQUEST_TIMEOUT_SECS
            &&& p.subscriber_capacity == SUBSCRIBER_CAPACITY
        },
        _ => false,
    }
}

fn remote_plan(server_path: &String, bind: &String) -> (r: BackendPlan)
    ensures
        connects(r, server_path@, bind@),
{
    BackendPlan::Remote(
        RemotePlan {
            server_path: server_path.clone(),
            bind: bind.clone(),
            system_name: String::from_str("atomr-worlds-client"),
            request_timeout_secs: REQUEST_TIMEOUT_SECS,
            subscriber_capacity: SUBSCRIBER_CAPACITY,
        },
    )
}

/// The host that the options ask for. A remote or cluster backend needs an
/// address to connect to; to the client, a cluster is one of its members.
pub fn build_backend(cli: &Cli) -> (r: Result<BackendPlan, String>)
    ensures
        match cli.backend {
            Backend::Local => r == Ok::<BackendPlan, String>(
                BackendPlan::Local { root_seed: cli.seed, ice: cli.world_gen is Ice },
            ),
            Backend::Remote => match cli.connect {
                Some(path) => r is Ok && connects(r->Ok_0, path@, cli.bind@),
                None => r is Err && r->Err_0@
                    == "--connect <server_path> required for --backend remote"@,
            },
            Backend::Cluster => match cli.connect {
                Some(path) => r is Ok && connects(r->Ok_0, path@, cli.bind@),
                None => r is Err && r->Err_0@
                    == "--connect <member_server_path> required for --backend cluster"@,
            },
        },
        r is Err <==> !(cli.backend is Local) && cli.connect is None,
        r is Ok && !(cli.backend is Local) ==> {
            &&& r->Ok_0 is Remote
            &&& r->Ok_0->Remote_0.server_path@ == cli.connect->0@
            &&& r->Ok_0->Remote_0.bind@ == cli.bind@
            &&& r->Ok_0->Remote_0.system_name@ == "atomr-worlds-client"@
            &&& r->Ok_0->Remote_0.request_timeout_secs == 10
            &&& r->Ok_0->Remote_0.subscriber_capacity == 256
        },
{
    match cli.backend {
        Backend::Local => Ok(
            BackendPlan::Local { root_seed: cli.seed, ice: cli.world_gen == WorldGenArg::Ice },
        ),
        Backend::Remote => match &cli.connect {
            Some(path) => Ok(remote_plan(path, &cli.bind)),
            None => Err(String::from_str("--connect <server_path> required for --backend remote")),
        },
        Backend::Cluster => match &cli.connect {
            Some(path) => Ok(remote_plan(path, &cli.bind)),
            None => Err(
                String::from_str("--connect <member_server_path> required for --backend cluster"),
            ),
        },
    }
}

/// What a failure to start a backend is reported as.
pub fn backend_failure(backend: Backend, cause: &str) -> (r: String)
    ensures
        r@ == (match backend {
            Backend::Local => "LocalHost: "@,
            Backend::Remote => "RemoteHost: "@,
            Backend::Cluster => "RemoteHost (cluster): "@,
        }) + cause@,
{
    let prefix: &str = match backend {
        Backend::Local => "LocalHost: ",
        Backend::Remote => "RemoteHost: ",
        Backend::Cluster => "RemoteHost (cluster): ",
    };
    String::from_str(prefix).concat(cause)
}

} // verus!
