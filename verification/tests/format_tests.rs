use rproc::performance::{
    iface_kind, iface_label, section_for_id, separator, short_disk_name, stat, NetInfo, Section,
};

fn net(name: &str) -> NetInfo {
    NetInfo { name: name.to_string() }
}

#[test]
fn iface_kind_classifies_by_prefix() {
    assert_eq!(iface_kind("wlan0"), "Wi-Fi");
    assert_eq!(iface_kind("wlp3s0"), "Wi-Fi");
    assert_eq!(iface_kind("wwan0"), "Mobile broadband");
    assert_eq!(iface_kind("usb0"), "USB tethering");
    assert_eq!(iface_kind("rndis0"), "USB tethering");
    assert_eq!(iface_kind("enp0s3"), "Ethernet");
    assert_eq!(iface_kind("eth0"), "Ethernet");
    assert_eq!(iface_kind("lo"), "Network");
}

#[test]
fn iface_label_unqualified_when_kind_is_unique() {
    let nets = [net("enp0s3"), net("wlan0")];
    assert_eq!(iface_label(&nets, 0), "Ethernet");
    assert_eq!(iface_label(&nets, 1), "Wi-Fi");
}

#[test]
fn iface_label_ranks_interfaces_of_the_same_kind() {
    let nets = [net("eth0"), net("wlan0"), net("eth1")];
    assert_eq!(iface_label(&nets, 0), "Ethernet 1");
    assert_eq!(iface_label(&nets, 2), "Ethernet 2");
    assert_eq!(iface_label(&nets, 1), "Wi-Fi");
}

#[test]
fn iface_label_out_of_range_is_generic() {
    let nets = [net("eth0")];
    assert_eq!(iface_label(&nets, 5), "Network");
}

#[test]
fn short_disk_name_strips_dev_prefix() {
    assert_eq!(short_disk_name("/dev/nvme0n1"), "nvme0n1");
    assert_eq!(short_disk_name("sda"), "sda");
}

#[test]
fn section_for_id_reads_card_ids() {
    assert_eq!(section_for_id("cpu"), Section::Cpu);
    assert_eq!(section_for_id("mem"), Section::Memory);
    assert_eq!(section_for_id("battery"), Section::Battery);
    assert_eq!(section_for_id("gpu1"), Section::Gpu(1));
    assert_eq!(section_for_id("disk12"), Section::Disk(12));
    assert_eq!(section_for_id("net+3"), Section::Network(3));
    assert_eq!(section_for_id("netx"), Section::Network(0));
    assert_eq!(section_for_id("disk"), Section::Disk(0));
    assert_eq!(section_for_id("disk99999999999999999999999"), Section::Disk(0));
    assert_eq!(section_for_id("swap"), Section::Cpu);
}

#[test]
fn stat_lines() {
    let s = stat("Speed", "3.2 GHz");
    assert_eq!((s.label.as_str(), s.value.as_str(), s.separator), ("Speed", "3.2 GHz", false));
    let sep = separator();
    assert!(sep.separator && sep.label.is_empty() && sep.value.is_empty());
}

#[test]
fn interface_labels_are_all_different() {
    let nets: Vec<NetInfo> = ["wlan0", "eth0", "wlan1", "enp3s0", "lo", "usb0", "wwan0", "docker0"]
        .iter()
        .map(|n| NetInfo { name: n.to_string() })
        .collect();
    let labels: Vec<String> = (0..nets.len()).map(|i| iface_label(&nets, i)).collect();
    for i in 0..labels.len() {
        for j in i + 1..labels.len() {
            assert_ne!(labels[i], labels[j]);
        }
    }
    assert_eq!(labels[2], "Wi-Fi 2");
    assert_eq!(labels[4], "Network 1");
}
