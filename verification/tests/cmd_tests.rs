use netns_kit::cmd::{
    addr_add_cmd, addr_show_cmd, bridge_add_cmd, bridge_exists_cmd, exists_from_output,
    iptables_restore_cmd, iptables_save_cmd, interface_mtu_cmd, interface_set_up_cmd,
    link_set_master_cmd, link_show_dev_cmd, netns_add_cmd, netns_config_path, netns_del_cmd,
    netns_list_cmd, netns_probe_cmd, nginx_reload_cmd, require_success, veth_add_cmd,
    veth_exists_cmd, wireguard_conf_path, wireguard_create_cmd, wireguard_exists_cmd,
    wireguard_move_cmd, wireguard_stats_cmd, wireguard_syncconf_cmd, ToolOutput,
};
use netns_kit::errors::{NetError, OpContext, OpKind};

fn args(v: &[&str]) -> Vec<String> {
    v.iter().map(|s| s.to_string()).collect()
}

#[test]
fn test_netns_cmds() {
    let inv = netns_add_cmd("blue");
    assert_eq!(inv.program, "/usr/sbin/ip");
    assert_eq!(inv.args, args(&["netns", "add", "blue"]));

    let inv = netns_del_cmd("blue");
    assert_eq!(inv.args, args(&["netns", "del", "blue"]));

    let inv = netns_probe_cmd("blue");
    assert_eq!(inv.args, args(&["netns", "exec", "blue", "/bin/true"]));

    let inv = netns_list_cmd();
    assert_eq!(inv.args, args(&["--json", "netns", "list"]));
}

#[test]
fn test_scoped_cmds() {
    let inv = addr_add_cmd(Some("blue"), "veth0", "10.80.69.7/24");
    assert_eq!(
        inv.args,
        args(&["-n", "blue", "addr", "add", "10.80.69.7/24", "dev", "veth0"])
    );
    let inv = addr_add_cmd(None, "veth0", "10.80.69.7/24");
    assert_eq!(inv.args, args(&["addr", "add", "10.80.69.7/24", "dev", "veth0"]));

    let inv = addr_show_cmd(Some("blue"), "veth0");
    assert_eq!(inv.args, args(&["--json", "-n", "blue", "addr", "show", "dev", "veth0"]));

    let inv = bridge_add_cmd(None, "br0");
    assert_eq!(inv.args, args(&["link", "add", "br0", "type", "bridge"]));

    let inv = bridge_exists_cmd(Some("blue"), "br0");
    assert_eq!(inv.args, args(&["-n", "blue", "link", "show", "br0", "type", "bridge"]));

    let inv = veth_exists_cmd("blue", "veth0");
    assert_eq!(inv.args, args(&["-n", "blue", "link", "show", "veth0", "type", "veth"]));

    let inv = wireguard_exists_cmd("blue", "wg0");
    assert_eq!(inv.args, args(&["-n", "blue", "link", "show", "wg0", "type", "wireguard"]));

    let inv = link_show_dev_cmd(None, "wg0");
    assert_eq!(inv.args, args(&["--json", "link", "show", "dev", "wg0"]));

    let inv = interface_set_up_cmd(Some("blue"), "wg0");
    assert_eq!(inv.args, args(&["-n", "blue", "link", "set", "wg0", "up"]));

    let inv = link_set_master_cmd(None, "veth0", "br0");
    assert_eq!(
        inv.args,
        args(&["--json", "link", "set", "dev", "veth0", "master", "br0"])
    );
}

#[test]
fn test_mtu_cmd_renders_decimal() {
    let inv = interface_mtu_cmd(None, "wg0", 1300);
    assert_eq!(inv.args, args(&["link", "set", "wg0", "mtu", "1300"]));
    let inv = interface_mtu_cmd(Some("blue"), "wg0", 9000);
    assert_eq!(inv.args, args(&["-n", "blue", "link", "set", "wg0", "mtu", "9000"]));
}

#[test]
fn test_veth_and_wireguard_cmds() {
    let inv = veth_add_cmd("blue", "veth0", "veth1");
    assert_eq!(
        inv.args,
        args(&["link", "add", "dev", "veth0", "type", "veth", "peer", "veth1", "netns", "blue"])
    );

    let inv = wireguard_create_cmd("wg0");
    assert_eq!(inv.args, args(&["link", "add", "dev", "wg0", "type", "wireguard"]));

    let inv = wireguard_move_cmd("wg0", "blue");
    assert_eq!(inv.args, args(&["link", "set", "wg0", "netns", "blue"]));

    assert_eq!(wireguard_conf_path("wg0"), "/etc/wireguard/wg0.conf");

    let inv = wireguard_syncconf_cmd("blue", "wg0");
    assert_eq!(
        inv.args,
        args(&["netns", "exec", "blue", "wg", "syncconf", "wg0", "/etc/wireguard/wg0.conf"])
    );

    let inv = wireguard_stats_cmd("blue", "wg0");
    assert_eq!(inv.args, args(&["netns", "exec", "blue", "wg", "show", "wg0", "dump"]));
}

#[test]
fn test_firewall_and_reload_cmds() {
    let inv = iptables_save_cmd(None);
    assert_eq!(inv.program, "/usr/sbin/iptables-save");
    assert!(inv.args.is_empty());

    let inv = iptables_save_cmd(Some("blue"));
    assert_eq!(inv.program, "/usr/sbin/ip");
    assert_eq!(inv.args, args(&["netns", "exec", "blue", "/usr/sbin/iptables-save"]));

    let inv = iptables_restore_cmd(None);
    assert_eq!(inv.program, "/usr/sbin/iptables-restore");
    assert_eq!(inv.args, args(&["-w"]));

    let inv = iptables_restore_cmd(Some("blue"));
    assert_eq!(
        inv.args,
        args(&["netns", "exec", "blue", "/usr/sbin/iptables-restore", "-w"])
    );

    let inv = nginx_reload_cmd();
    assert_eq!(inv.program, "nginx");
    assert_eq!(inv.args, args(&["-s", "reload"]));
}

#[test]
fn test_netns_config_path() {
    assert_eq!(netns_config_path("blue", "resolv.conf"), "/etc/netns/blue/resolv.conf");
}

#[test]
fn test_require_success() {
    let ctx = OpContext { op: OpKind::NetnsAdd, netns: None, name: Some("blue".to_string()) };
    let out = ToolOutput { success: true, stdout: b"data".to_vec() };
    assert_eq!(require_success(out, ctx.clone()).unwrap(), b"data".to_vec());

    let out = ToolOutput { success: false, stdout: Vec::new() };
    match require_success(out, ctx) {
        Err(NetError::CommandFailed(c)) => {
            assert!(matches!(c.op, OpKind::NetnsAdd));
            assert_eq!(c.name.as_deref(), Some("blue"));
        }
        _ => panic!("a failed exit must map to a command failure"),
    }
}

#[test]
fn test_exists_from_output() {
    let yes = ToolOutput { success: true, stdout: b"record".to_vec() };
    assert!(exists_from_output(&yes));
    let failed = ToolOutput { success: false, stdout: b"record".to_vec() };
    assert!(!exists_from_output(&failed));
    let empty = ToolOutput { success: true, stdout: Vec::new() };
    assert!(!exists_from_output(&empty));
}
