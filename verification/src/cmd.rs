//! The process-invocation gateway's pure half: the exact argument vectors
//! handed to the external tools, and the classification of what came back.
//!
//! Spawning is left to the embedding application: it takes an
//! [`Invocation`], runs it, and hands back a [`ToolOutput`].  Everything
//! decided here — which tool, which arguments, how an exit status maps to a
//! result — is verified.

use vstd::prelude::*;
use vstd::string::StringExecFns;
use crate::errors::{NetError, OpContext};
use crate::text::{ascii_string, dec_chars, format_u64};

verus! {

/// Path of the link/namespace/address manager tool.
pub const IP_PATH: &'static str = "/usr/sbin/ip";

/// Path of the firewall save tool.
pub const IPTABLES_SAVE_PATH: &'static str = "/usr/sbin/iptables-save";

/// Path of the firewall restore tool.
pub const IPTABLES_RESTORE_PATH: &'static str = "/usr/sbin/iptables-restore";

/// One external command to run: a program and its argument vector.
pub struct Invocation {
    pub program: String,
    pub args: Vec<String>,
}

/// What running a command produced: whether it exited successfully, and its
/// captured standard output.
pub struct ToolOutput {
    pub success: bool,
    pub stdout: Vec<u8>,
}

/// The character sequences of an argument vector.
pub open spec fn arg_views(args: Seq<String>) -> Seq<Seq<char>> {
    args.map_values(|s: String| s@)
}

/// The arguments that scope a manager-tool command to a namespace: nothing
/// for the current namespace, `-n <netns>` otherwise.
pub open spec fn scope_views(netns: Option<&str>) -> Seq<Seq<char>> {
    match netns {
        Some(ns) => seq!["-n"@, ns@],
        None => Seq::<Seq<char>>::empty(),
    }
}

fn scope_args(netns: Option<&str>) -> (r: Vec<String>)
    ensures
        arg_views(r@) == scope_views(netns),
{
    let mut args: Vec<String> = Vec::new();
    match netns {
        Some(ns) => {
            args.push("-n".to_owned());
            args.push(ns.to_owned());
            proof {
                assert(arg_views(args@) =~~= scope_views(netns));
            }
        },
        None => {
            proof {
                assert(arg_views(args@) =~~= scope_views(netns));
            }
        },
    }
    args
}

/// `netns add <name>`: create a namespace.  The tool itself rejects a
/// duplicate name with a non-zero exit.
pub fn netns_add_cmd(name: &str) -> (r: Invocation)
    ensures
        r.program@ == IP_PATH@,
        arg_views(r.args@) == seq!["netns"@, "add"@, name@],
{
    let mut args: Vec<String> = Vec::new();
    args.push("netns".to_owned());
    args.push("add".to_owned());
    args.push(name.to_owned());
    proof {
        assert(arg_views(args@) =~~= seq!["netns"@, "add"@, name@]);
    }
    Invocation { program: IP_PATH.to_owned(), args }
}

/// `netns del <name>`: delete a namespace and every interface in it.  The
/// tool fails on a name that does not exist.
pub fn netns_del_cmd(name: &str) -> (r: Invocation)
    ensures
        r.program@ == IP_PATH@,
        arg_views(r.args@) == seq!["netns"@, "del"@, name@],
{
    let mut args: Vec<String> = Vec::new();
    args.push("netns".to_owned());
    args.push("del".to_owned());
    args.push(name.to_owned());
    proof {
        assert(arg_views(args@) =~~= seq!["netns"@, "del"@, name@]);
    }
    Invocation { program: IP_PATH.to_owned(), args }
}

/// `netns exec <name> /bin/true`: the existence probe.  Running a no-op
/// inside the namespace succeeds exactly when the namespace exists; the
/// probe has no effect of its own.
pub fn netns_probe_cmd(name: &str) -> (r: Invocation)
    ensures
        r.program@ == IP_PATH@,
        arg_views(r.args@) == seq!["netns"@, "exec"@, name@, "/bin/true"@],
{
    let mut args: Vec<String> = Vec::new();
    args.push("netns".to_owned());
    args.push("exec".to_owned());
    args.push(name.to_owned());
    args.push("/bin/true".to_owned());
    proof {
        assert(arg_views(args@) =~~= seq!["netns"@, "exec"@, name@, "/bin/true"@]);
    }
    Invocation { program: IP_PATH.to_owned(), args }
}

/// `--json netns list`: list all namespaces as JSON records.
pub fn netns_list_cmd() -> (r: Invocation)
    ensures
        r.program@ == IP_PATH@,
        arg_views(r.args@) == seq!["--json"@, "netns"@, "list"@],
{
    let mut args: Vec<String> = Vec::new();
    args.push("--json".to_owned());
    args.push("netns".to_owned());
    args.push("list".to_owned());
    proof {
        assert(arg_views(args@) =~~= seq!["--json"@, "netns"@, "list"@]);
    }
    Invocation { program: IP_PATH.to_owned(), args }
}

/// `addr add <addr> dev <interface>`, optionally namespace-scoped.
/// `addr_text` is the CIDR form of the address being assigned.
pub fn addr_add_cmd(netns: Option<&str>, interface: &str, addr_text: &str) -> (r: Invocation)
    ensures
        r.program@ == IP_PATH@,
        arg_views(r.args@) == scope_views(netns) + seq![
            "addr"@,
            "add"@,
            addr_text@,
            "dev"@,
            interface@,
        ],
{
    let mut args = scope_args(netns);
    args.push("addr".to_owned());
    args.push("add".to_owned());
    args.push(addr_text.to_owned());
    args.push("dev".to_owned());
    args.push(interface.to_owned());
    proof {
        assert(arg_views(args@) =~~= scope_views(netns) + seq![
            "addr"@,
            "add"@,
            addr_text@,
            "dev"@,
            interface@,
        ]);
    }
    Invocation { program: IP_PATH.to_owned(), args }
}

/// `--json addr show dev <interface>`, optionally namespace-scoped: query
/// the addresses assigned to an interface.
pub fn addr_show_cmd(netns: Option<&str>, interface: &str) -> (r: Invocation)
    ensures
        r.program@ == IP_PATH@,
        arg_views(r.args@) == seq!["--json"@] + scope_views(netns) + seq![
            "addr"@,
            "show"@,
            "dev"@,
            interface@,
        ],
{
    let mut args: Vec<String> = Vec::new();
    args.push("--json".to_owned());
    let mut scoped = scope_args(netns);
    args.append(&mut scoped);
    args.push("addr".to_owned());
    args.push("show".to_owned());
    args.push("dev".to_owned());
    args.push(interface.to_owned());
    proof {
        assert(arg_views(args@) =~~= seq!["--json"@] + scope_views(netns) + seq![
            "addr"@,
            "show"@,
            "dev"@,
            interface@,
        ]);
    }
    Invocation { program: IP_PATH.to_owned(), args }
}

/// `link add <interface> type bridge`, optionally namespace-scoped.
pub fn bridge_add_cmd(netns: Option<&str>, interface: &str) -> (r: Invocation)
    ensures
        r.program@ == IP_PATH@,
        arg_views(r.args@) == scope_views(netns) + seq![
            "link"@,
            "add"@,
            interface@,
            "type"@,
            "bridge"@,
        ],
{
    let mut args = scope_args(netns);
    args.push("link".to_owned());
    args.push("add".to_owned());
    args.push(interface.to_owned());
    args.push("type".to_owned());
    args.push("bridge".to_owned());
    proof {
        assert(arg_views(args@) =~~= scope_views(netns) + seq![
            "link"@,
            "add"@,
            interface@,
            "type"@,
            "bridge"@,
        ]);
    }
    Invocation { program: IP_PATH.to_owned(), args }
}

fn link_show_type_cmd(netns: Option<&str>, name: &str, kind: &str) -> (r: Invocation)
    ensures
        r.program@ == IP_PATH@,
        arg_views(r.args@) == scope_views(netns) + seq![
            "link"@,
            "show"@,
            name@,
            "type"@,
            kind@,
        ],
{
    let mut args = scope_args(netns);
    args.push("link".to_owned());
    args.push("show".to_owned());
    args.push(name.to_owned());
    args.push("type".to_owned());
    args.push(kind.to_owned());
    proof {
        assert(arg_views(args@) =~~= scope_views(netns) + seq![
            "link"@,
            "show"@,
            name@,
            "type"@,
            kind@,
        ]);
    }
    Invocation { program: IP_PATH.to_owned(), args }
}

/// `link show <name> type bridge`: the bridge existence query.  Existence
/// is success plus non-empty output; see [`exists_from_output`].
pub fn bridge_exists_cmd(netns: Option<&str>, name: &str) -> (r: Invocation)
    ensures
        r.program@ == IP_PATH@,
        arg_views(r.args@) == scope_views(netns) + seq![
            "link"@,
            "show"@,
            name@,
            "type"@,
            "bridge"@,
        ],
{
    link_show_type_cmd(netns, name, "bridge")
}

/// `-n <netns> link show <name> type veth`: the veth existence query.
pub fn veth_exists_cmd(netns: &str, name: &str) -> (r: Invocation)
    ensures
        r.program@ == IP_PATH@,
        arg_views(r.args@) == seq!["-n"@, netns@, "link"@, "show"@, name@, "type"@, "veth"@],
{
    let r = link_show_type_cmd(Some(netns), name, "veth");
    proof {
        assert(arg_views(r.args@) =~~= seq![
            "-n"@,
            netns@,
            "link"@,
            "show"@,
            name@,
            "type"@,
            "veth"@,
        ]);
    }
    r
}

/// `-n <netns> link show <name> type wireguard`: the tunnel-link existence
/// query.
pub fn wireguard_exists_cmd(netns: &str, name: &str) -> (r: Invocation)
    ensures
        r.program@ == IP_PATH@,
        arg_views(r.args@) == seq![
            "-n"@,
            netns@,
            "link"@,
            "show"@,
            name@,
            "type"@,
            "wireguard"@,
        ],
{
    let r = link_show_type_cmd(Some(netns), name, "wireguard");
    proof {
        assert(arg_views(r.args@) =~~= seq![
            "-n"@,
            netns@,
            "link"@,
            "show"@,
            name@,
            "type"@,
            "wireguard"@,
        ]);
    }
    r
}

/// `--json link show dev <interface>`: the full link-state query, used both
/// to read interface details and to read bridge enslavement.
pub fn link_show_dev_cmd(netns: Option<&str>, interface: &str) -> (r: Invocation)
    ensures
        r.program@ == IP_PATH@,
        arg_views(r.args@) == seq!["--json"@] + scope_views(netns) + seq![
            "link"@,
            "show"@,
            "dev"@,
            interface@,
        ],
{
    let mut args: Vec<String> = Vec::new();
    args.push("--json".to_owned());
    let mut scoped = scope_args(netns);
    args.append(&mut scoped);
    args.push("link".to_owned());
    args.push("show".to_owned());
    args.push("dev".to_owned());
    args.push(interface.to_owned());
    proof {
        assert(arg_views(args@) =~~= seq!["--json"@] + scope_views(netns) + seq![
            "link"@,
            "show"@,
            "dev"@,
            interface@,
        ]);
    }
    Invocation { program: IP_PATH.to_owned(), args }
}

/// `link set <interface> up`: set the administrative state up.
pub fn interface_set_up_cmd(netns: Option<&str>, interface: &str) -> (r: Invocation)
    ensures
        r.program@ == IP_PATH@,
        arg_views(r.args@) == scope_views(netns) + seq!["link"@, "set"@, interface@, "up"@],
{
    let mut args = scope_args(netns);
    args.push("link".to_owned());
    args.push("set".to_owned());
    args.push(interface.to_owned());
    args.push("up".to_owned());
    proof {
        assert(arg_views(args@) =~~= scope_views(netns) + seq![
            "link"@,
            "set"@,
            interface@,
            "up"@,
        ]);
    }
    Invocation { program: IP_PATH.to_owned(), args }
}

/// `link set <interface> mtu <mtu>`: the MTU argument is rendered as its
/// exact decimal numeral.
pub fn interface_mtu_cmd(netns: Option<&str>, interface: &str, mtu: u64) -> (r: Invocation)
    ensures
        r.program@ == IP_PATH@,
        arg_views(r.args@) == scope_views(netns) + seq![
            "link"@,
            "set"@,
            interface@,
            "mtu"@,
            dec_chars(mtu as int),
        ],
{
    let mut args = scope_args(netns);
    args.push("link".to_owned());
    args.push("set".to_owned());
    args.push(interface.to_owned());
    args.push("mtu".to_owned());
    let digits = format_u64(mtu);
    proof {
        assert(forall|i: int| 0 <= i < digits@.len() ==> digits@[i] < 128);
    }
    args.push(ascii_string(digits));
    proof {
        assert(arg_views(args@) =~~= scope_views(netns) + seq![
            "link"@,
            "set"@,
            interface@,
            "mtu"@,
            dec_chars(mtu as int),
        ]);
    }
    Invocation { program: IP_PATH.to_owned(), args }
}

/// `--json link set dev <interface> master <master>`: enslave an interface
/// to a bridge.
pub fn link_set_master_cmd(netns: Option<&str>, interface: &str, master: &str) -> (r: Invocation)
    ensures
        r.program@ == IP_PATH@,
        arg_views(r.args@) == seq!["--json"@] + scope_views(netns) + seq![
            "link"@,
            "set"@,
            "dev"@,
            interface@,
            "master"@,
            master@,
        ],
{
    let mut args: Vec<String> = Vec::new();
    args.push("--json".to_owned());
    let mut scoped = scope_args(netns);
    args.append(&mut scoped);
    args.push("link".to_owned());
    args.push("set".to_owned());
    args.push("dev".to_owned());
    args.push(interface.to_owned());
    args.push("master".to_owned());
    args.push(master.to_owned());
    proof {
        assert(arg_views(args@) =~~= seq!["--json"@] + scope_views(netns) + seq![
            "link"@,
            "set"@,
            "dev"@,
            interface@,
            "master"@,
            master@,
        ]);
    }
    Invocation { program: IP_PATH.to_owned(), args }
}

/// `link add dev <outer> type veth peer <inner> netns <netns>`: create a
/// veth pair, the outer end in the current namespace, the inner end created
/// directly inside the target namespace.
pub fn veth_add_cmd(netns: &str, outer: &str, inner: &str) -> (r: Invocation)
    ensures
        r.program@ == IP_PATH@,
        arg_views(r.args@) == seq![
            "link"@,
            "add"@,
            "dev"@,
            outer@,
            "type"@,
            "veth"@,
            "peer"@,
            inner@,
            "netns"@,
            netns@,
        ],
{
    let mut args: Vec<String> = Vec::new();
    args.push("link".to_owned());
    args.push("add".to_owned());
    args.push("dev".to_owned());
    args.push(outer.to_owned());
    args.push("type".to_owned());
    args.push("veth".to_owned());
    args.push("peer".to_owned());
    args.push(inner.to_owned());
    args.push("netns".to_owned());
    args.push(netns.to_owned());
    proof {
        assert(arg_views(args@) =~~= seq![
            "link"@,
            "add"@,
            "dev"@,
            outer@,
            "type"@,
            "veth"@,
            "peer"@,
            inner@,
            "netns"@,
            netns@,
        ]);
    }
    Invocation { program: IP_PATH.to_owned(), args }
}

/// `link add dev <name> type wireguard`: the first step of tunnel-link
/// creation.  The link is created in the current namespace and moved with
/// [`wireguard_move_cmd`] as a separate, non-atomic second step: if the
/// move fails, the link exists unmoved and the caller owns the cleanup.
pub fn wireguard_create_cmd(name: &str) -> (r: Invocation)
    ensures
        r.program@ == IP_PATH@,
        arg_views(r.args@) == seq!["link"@, "add"@, "dev"@, name@, "type"@, "wireguard"@],
{
    let mut args: Vec<String> = Vec::new();
    args.push("link".to_owned());
    args.push("add".to_owned());
    args.push("dev".to_owned());
    args.push(name.to_owned());
    args.push("type".to_owned());
    args.push("wireguard".to_owned());
    proof {
        assert(arg_views(args@) =~~= seq![
            "link"@,
            "add"@,
            "dev"@,
            name@,
            "type"@,
            "wireguard"@,
        ]);
    }
    Invocation { program: IP_PATH.to_owned(), args }
}

/// `link set <name> netns <netns>`: move a link into a namespace, the
/// second step of tunnel-link creation.
pub fn wireguard_move_cmd(name: &str, netns: &str) -> (r: Invocation)
    ensures
        r.program@ == IP_PATH@,
        arg_views(r.args@) == seq!["link"@, "set"@, name@, "netns"@, netns@],
{
    let mut args: Vec<String> = Vec::new();
    args.push("link".to_owned());
    args.push("set".to_owned());
    args.push(name.to_owned());
    args.push("netns".to_owned());
    args.push(netns.to_owned());
    proof {
        assert(arg_views(args@) =~~= seq!["link"@, "set"@, name@, "netns"@, netns@]);
    }
    Invocation { program: IP_PATH.to_owned(), args }
}

/// The per-interface path convention where a tunnel configuration file is
/// expected before a sync: `/etc/wireguard/<name>.conf`.
pub fn wireguard_conf_path(name: &str) -> (r: String)
    ensures
        r@ == "/etc/wireguard/"@ + name@ + ".conf"@,
{
    let mut path = "/etc/wireguard/".to_owned();
    path.append(name);
    path.append(".conf");
    path
}

/// `netns exec <netns> wg syncconf <name> /etc/wireguard/<name>.conf`:
/// replace the running peer set with exactly what the file specifies.  The
/// file must already be in place; the tool fails if it is absent.
pub fn wireguard_syncconf_cmd(netns: &str, name: &str) -> (r: Invocation)
    ensures
        r.program@ == IP_PATH@,
        arg_views(r.args@) == seq![
            "netns"@,
            "exec"@,
            netns@,
            "wg"@,
            "syncconf"@,
            name@,
            "/etc/wireguard/"@ + name@ + ".conf"@,
        ],
{
    let mut args: Vec<String> = Vec::new();
    args.push("netns".to_owned());
    args.push("exec".to_owned());
    args.push(netns.to_owned());
    args.push("wg".to_owned());
    args.push("syncconf".to_owned());
    args.push(name.to_owned());
    args.push(wireguard_conf_path(name));
    proof {
        assert(arg_views(args@) =~~= seq![
            "netns"@,
            "exec"@,
            netns@,
            "wg"@,
            "syncconf"@,
            name@,
            "/etc/wireguard/"@ + name@ + ".conf"@,
        ]);
    }
    Invocation { program: IP_PATH.to_owned(), args }
}

/// `netns exec <netns> wg show <name> dump`: fetch live tunnel statistics
/// in the tab-delimited dump format.
pub fn wireguard_stats_cmd(netns: &str, name: &str) -> (r: Invocation)
    ensures
        r.program@ == IP_PATH@,
        arg_views(r.args@) == seq![
            "netns"@,
            "exec"@,
            netns@,
            "wg"@,
            "show"@,
            name@,
            "dump"@,
        ],
{
    let mut args: Vec<String> = Vec::new();
    args.push("netns".to_owned());
    args.push("exec".to_owned());
    args.push(netns.to_owned());
    args.push("wg".to_owned());
    args.push("show".to_owned());
    args.push(name.to_owned());
    args.push("dump".to_owned());
    proof {
        assert(arg_views(args@) =~~= seq![
            "netns"@,
            "exec"@,
            netns@,
            "wg"@,
            "show"@,
            name@,
            "dump"@,
        ]);
    }
    Invocation { program: IP_PATH.to_owned(), args }
}

/// The firewall save tool, host-wide or wrapped in `netns exec`.  Its whole
/// standard output is the opaque ruleset snapshot.
pub fn iptables_save_cmd(netns: Option<&str>) -> (r: Invocation)
    ensures
        netns matches Some(ns) ==> r.program@ == IP_PATH@ && arg_views(r.args@) == seq![
            "netns"@,
            "exec"@,
            ns@,
            IPTABLES_SAVE_PATH@,
        ],
        netns is None ==> r.program@ == IPTABLES_SAVE_PATH@ && arg_views(r.args@)
            == Seq::<Seq<char>>::empty(),
{
    match netns {
        Some(ns) => {
            let mut args: Vec<String> = Vec::new();
            args.push("netns".to_owned());
            args.push("exec".to_owned());
            args.push(ns.to_owned());
            args.push(IPTABLES_SAVE_PATH.to_owned());
            proof {
                assert(arg_views(args@) =~~= seq![
                    "netns"@,
                    "exec"@,
                    ns@,
                    IPTABLES_SAVE_PATH@,
                ]);
            }
            Invocation { program: IP_PATH.to_owned(), args }
        },
        None => {
            let args: Vec<String> = Vec::new();
            proof {
                assert(arg_views(args@) =~~= Seq::<Seq<char>>::empty());
            }
            Invocation { program: IPTABLES_SAVE_PATH.to_owned(), args }
        },
    }
}

/// The firewall restore tool with its wait flag, host-wide or wrapped in
/// `netns exec`; the snapshot blob is piped to its input by the caller.
pub fn iptables_restore_cmd(netns: Option<&str>) -> (r: Invocation)
    ensures
        netns matches Some(ns) ==> r.program@ == IP_PATH@ && arg_views(r.args@) == seq![
            "netns"@,
            "exec"@,
            ns@,
            IPTABLES_RESTORE_PATH@,
            "-w"@,
        ],
        netns is None ==> r.program@ == IPTABLES_RESTORE_PATH@ && arg_views(r.args@) == seq![
            "-w"@,
        ],
{
    match netns {
        Some(ns) => {
            let mut args: Vec<String> = Vec::new();
            args.push("netns".to_owned());
            args.push("exec".to_owned());
            args.push(ns.to_owned());
            args.push(IPTABLES_RESTORE_PATH.to_owned());
            args.push("-w".to_owned());
            proof {
                assert(arg_views(args@) =~~= seq![
                    "netns"@,
                    "exec"@,
                    ns@,
                    IPTABLES_RESTORE_PATH@,
                    "-w"@,
                ]);
            }
            Invocation { program: IP_PATH.to_owned(), args }
        },
        None => {
            let mut args: Vec<String> = Vec::new();
            args.push("-w".to_owned());
            proof {
                assert(arg_views(args@) =~~= seq!["-w"@]);
            }
            Invocation { program: IPTABLES_RESTORE_PATH.to_owned(), args }
        },
    }
}

/// `nginx -s reload`: signal the reverse proxy to reload.
pub fn nginx_reload_cmd() -> (r: Invocation)
    ensures
        r.program@ == "nginx"@,
        arg_views(r.args@) == seq!["-s"@, "reload"@],
{
    let mut args: Vec<String> = Vec::new();
    args.push("-s".to_owned());
    args.push("reload".to_owned());
    proof {
        assert(arg_views(args@) =~~= seq!["-s"@, "reload"@]);
    }
    Invocation { program: "nginx".to_owned(), args }
}

/// The path under the namespace-scoped configuration root where a
/// namespace-aware tool reads a per-namespace override:
/// `/etc/netns/<netns>/<relative>`.
pub fn netns_config_path(netns: &str, relative: &str) -> (r: String)
    ensures
        r@ == "/etc/netns/"@ + netns@ + "/"@ + relative@,
{
    let mut path = "/etc/netns/".to_owned();
    path.append(netns);
    path.append("/");
    path.append(relative);
    path
}

/// Classify a mutating command's outcome: success passes the captured
/// output through, a non-zero exit becomes the operation-scoped failure.
/// Nothing is retried and nothing is masked.
pub fn require_success(out: ToolOutput, ctx: OpContext) -> (r: Result<Vec<u8>, NetError>)
    ensures
        r is Ok <==> out.success,
        out.success ==> (r matches Ok(v) && v == out.stdout),
        !out.success ==> (r matches Err(e) && e == NetError::CommandFailed(ctx)),
{
    if out.success {
        Ok(out.stdout)
    } else {
        Err(NetError::CommandFailed(ctx))
    }
}

/// The existence signal of the link-show queries: the query exited
/// successfully and printed at least one record.  A failed query or empty
/// output both read as "does not exist", never as an error.
pub fn exists_from_output(out: &ToolOutput) -> (r: bool)
    ensures
        r == (out.success && out.stdout@.len() > 0),
{
    out.success && out.stdout.len() > 0
}

} // verus!
