use seedvault::network::assess_network_security;
use seedvault::network::get_network_warning_message;
use seedvault::network::is_real_ip_address;
use seedvault::network::is_virtual_interface;
use seedvault::network::parse_ifconfig_output;
use seedvault::network::parse_route_output;
use seedvault::wallet::parse_filename_for_wallet_info;
use seedvault::wallet::generate_wallet_filename;
use seedvault::wallet::WalletMetadata;
use seedvault::wallet::WalletType;

#[test]
fn test_warning_message() {
    let message = get_network_warning_message();
    assert!(message.contains("Network Connection Detected"));
    assert!(message.contains("disconnect from the internet"));
}

#[test]
fn test_assess_network_security() {
    // Unsafe exactly when HTTP works, or DNS works over a real
    // interface.
    assert!(assess_network_security(true, true, true));
    assert!(assess_network_security(true, true, false));
    assert!(assess_network_security(false, true, true));
    assert!(assess_network_security(false, true, false));
    assert!(assess_network_security(true, false, true));
    assert!(!assess_network_security(true, false, false));
    assert!(!assess_network_security(false, false, true));
    assert!(!assess_network_security(false, false, false));
}

#[test]
fn test_is_real_ip_address() {
    assert!(is_real_ip_address("10.0.0.5"));
    assert!(is_real_ip_address("192.168.1.2"));
    assert!(is_real_ip_address("172.16.0.1"));
    assert!(is_real_ip_address("172.31.255.1"));
    assert!(is_real_ip_address("8.8.8.8"));
    assert!(!is_real_ip_address("127.0.0.1"));
    assert!(!is_real_ip_address("169.254.7.7"));
    // 172.x outside the private block still counts as a real address.
    assert!(is_real_ip_address("172.32.0.1"));
}

#[test]
fn test_is_virtual_interface() {
    assert!(is_virtual_interface("utun0"));
    assert!(is_virtual_interface("AWDL0"));
    assert!(is_virtual_interface("vmnet8"));
    assert!(is_virtual_interface("lo0"));
    assert!(is_virtual_interface("lo"));
    assert!(!is_virtual_interface("eth0"));
    assert!(!is_virtual_interface("en0"));
}

#[test]
fn test_parse_ifconfig_output() {
    let up = "en0: flags=8863<UP,BROADCAST,SMART,RUNNING> mtu 1500\n\tinet 192.168.1.10/24\n";
    assert!(parse_ifconfig_output(up));

    let down = "en0: flags=8863<BROADCAST,SMART> mtu 1500\n\tinet 192.168.1.10/24\n";
    assert!(!parse_ifconfig_output(down));

    let loopback = "lo0: flags=8049<UP,LOOPBACK,RUNNING> mtu 16384\n\tinet 127.0.0.1/8\n";
    assert!(!parse_ifconfig_output(loopback));

    let virtual_if = "utun3: flags=8051<UP,POINTOPOINT,RUNNING> mtu 1380\n\tinet 10.8.0.2/24\n";
    assert!(!parse_ifconfig_output(virtual_if));

    assert!(!parse_ifconfig_output(""));
}

#[test]
fn test_generate_wallet_filename() {
    let metadata = WalletMetadata {
        label: "My/Wallet".to_string(),
        wallet_type: WalletType::ColdWallet,
        created_at: "20260101_120000".to_string(),
        seed_phrase_word_count: Some(12),
    };
    let name = generate_wallet_filename(&metadata);
    assert_eq!(name, "My_Wallet_Cold Wallet_12words_20260101_120000.bin");

    let plain = WalletMetadata {
        label: "Backup".to_string(),
        wallet_type: WalletType::Custom("Paper".to_string()),
        created_at: "20250505_050505".to_string(),
        seed_phrase_word_count: None,
    };
    assert_eq!(generate_wallet_filename(&plain), "Backup_Paper_20250505_050505.bin");
}

#[test]
fn test_wallet_type_labels() {
    assert_eq!(WalletType::MainWallet.to_string(), "Main Wallet");
    assert_eq!(WalletType::from_string("Cold Wallet").to_string(), "Cold Wallet");
    assert!(matches!(WalletType::from_string("Shoe Box"), WalletType::Custom(_)));
    assert_eq!(WalletType::from_string("Shoe Box").to_string(), "Shoe Box");
}

#[test]
fn test_parse_route_output() {
    let real = "   route to: default\ngateway: 192.168.1.1\n  interface: en0\n";
    assert!(parse_route_output(real));
    let virt = "gateway: 10.0.0.1\n  interface: utun3\n";
    assert!(!parse_route_output(virt));
    assert!(!parse_route_output("no route\n"));
}

#[test]
fn test_parse_wallet_filename() {
    let r = parse_filename_for_wallet_info("Savings_Cold_12words_BTC_20240101_120000.bin");
    assert!(r.is_wallet_file);
    assert_eq!(r.original_filename, "Savings_Cold_12words_BTC_20240101_120000.bin");
    let info = r.wallet_info.unwrap();
    assert_eq!(info.label, "Savings");
    assert_eq!(info.wallet_type.to_string(), "Cold");
    assert_eq!(info.seed_phrase_word_count, Some(12));
    assert_eq!(info.file_path.as_deref(), Some("Savings_Cold_12words_BTC_20240101_120000.bin"));

    let plain = parse_filename_for_wallet_info("notes.txt");
    assert!(!plain.is_wallet_file);
    assert!(plain.wallet_info.is_none());

    let no_count = parse_filename_for_wallet_info("Backup_Main_BTC_20240101.bin");
    assert!(no_count.is_wallet_file);
    let info = no_count.wallet_info.unwrap();
    assert_eq!(info.label, "Backup");
    assert_eq!(info.wallet_type.to_string(), "Main");
    assert_eq!(info.seed_phrase_word_count, None);
}
