//! Launch configurations for the external collaborators.
//!
//! The probe and the download both run as external processes; the proxy is
//! handed to the download tool through an environment variable. A
//! `LaunchPlan` states the whole configuration as a plain value — program,
//! arguments, environment overrides — so nothing ambient decides what is
//! executed; the caller spawns it as given.

use vstd::prelude::*;
use vstd::string::*;

verus! {

/// A process launch configuration: what to run, with which arguments, and
/// which environment variables to set over the inherited environment.
pub struct LaunchPlan {
    pub program: String,
    pub args: Vec<String>,
    pub env: Vec<(String, String)>,
}

/// The probe invocation: route through the proxy over the SOCKS5 scheme
/// with remote name resolution, fetch the fixed target once, and give up
/// after the fixed timeout.
pub open spec fn probe_args(proxy: Seq<char>) -> Seq<Seq<char>> {
    seq!["-x"@, "socks5h://"@ + proxy, "https://rutracker.org"@, "--max-time"@, "10"@]
}

/// The download invocation: the magnet link, the destination directory, no
/// incomplete artifacts kept, verbose diagnostics.
pub open spec fn download_args(magnet: Seq<char>, dir: Seq<char>) -> Seq<Seq<char>> {
    seq![magnet, "-w"@, dir, "--no-incomplete"@, "--debug"@]
}

/// The download tool reads its proxy from this environment variable, over
/// the plain SOCKS5 scheme.
pub open spec fn download_env(proxy: Seq<char>) -> Seq<(Seq<char>, Seq<char>)> {
    seq![("ALL_PROXY"@, "socks5://"@ + proxy)]
}

/// Builds the launch plan of one liveness probe through `proxy`.
pub fn probe_plan(proxy: &String) -> (r: LaunchPlan)
    ensures
        r.program@ == "curl"@,
        r.args.deep_view() == probe_args(proxy@),
        r.env@.len() == 0,
{
    let mut args: Vec<String> = Vec::new();
    args.push(String::from_str("-x"));
    let mut routed = String::from_str("socks5h://");
    routed.append(proxy.as_str());
    args.push(routed);
    args.push(String::from_str("https://rutracker.org"));
    args.push(String::from_str("--max-time"));
    args.push(String::from_str("10"));
    proof {
        assert(args.deep_view() =~~= probe_args(proxy@));
    }
    LaunchPlan { program: String::from_str("curl"), args, env: Vec::new() }
}

/// Builds the launch plan of one download of `magnet` into `dir` through
/// `proxy`.
pub fn download_plan(magnet: &String, dir: &String, proxy: &String) -> (r: LaunchPlan)
    ensures
        r.program@ == "transmission-cli"@,
        r.args.deep_view() == download_args(magnet@, dir@),
        r.env.deep_view() == download_env(proxy@),
{
    let mut args: Vec<String> = Vec::new();
    args.push(magnet.clone());
    args.push(String::from_str("-w"));
    args.push(dir.clone());
    args.push(String::from_str("--no-incomplete"));
    args.push(String::from_str("--debug"));
    proof {
        assert(args.deep_view() =~~= download_args(magnet@, dir@));
    }
    let mut env: Vec<(String, String)> = Vec::new();
    let mut routed = String::from_str("socks5://");
    routed.append(proxy.as_str());
    env.push((String::from_str("ALL_PROXY"), routed));
    proof {
        assert(env.deep_view() =~~= download_env(proxy@));
    }
    LaunchPlan { program: String::from_str("transmission-cli"), args, env }
}

} // verus!
