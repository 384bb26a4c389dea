//! Configuration defaults.

use icmp_probe::config::Configuration;

#[test]
fn default_configuration_values() {
    let c = Configuration::default();
    assert_eq!(c.duration, 3_000_000);
    assert_eq!(c.host, "172.217.14.238");
    assert_eq!(c.number_of_pings, 20);
    assert_eq!(c.payload_size, 60);
    assert_eq!(c.ping_interval, 2000);
    assert_eq!(c.ttl, 15);
    assert_eq!(c.dscp, 0);
    assert_eq!(c.source_ip, "192.168.1.71");
}
