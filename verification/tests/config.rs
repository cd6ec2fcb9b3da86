use can_log_decoder::config::{CanTpPair, DecoderConfig};

#[test]
fn test_decoder_config_builder() {
    let config = DecoderConfig::new()
        .with_signal_decoding(true)
        .add_cantp_pair(0x7E0, 0x7E8)
        .add_named_cantp_pair(0x7E1, 0x7E9, "TCU_Diagnostics")
        .add_container_id(0x100)
        .with_channel_filter(vec![0, 1])
        .with_cantp_auto_detect(true);

    assert!(config.decode_signals);
    assert_eq!(config.cantp_pairs.len(), 2);
    assert_eq!(config.container_ids, vec![0x100]);
    assert_eq!(config.channel_filter, Some(vec![0, 1]));
    assert!(config.cantp_auto_detect);
}

#[test]
fn test_filter_logic() {
    let config = DecoderConfig::new()
        .with_channel_filter(vec![0, 1])
        .with_message_filter(vec![0x123, 0x456]);

    assert!(config.should_process_frame(0, 0x123));
    assert!(config.should_process_frame(1, 0x456));
    assert!(!config.should_process_frame(2, 0x123)); // Wrong channel
    assert!(!config.should_process_frame(0, 0x789)); // Wrong message
}

#[test]
fn test_no_filters() {
    let config = DecoderConfig::new();

    // Without filters, everything should pass
    assert!(config.should_process_frame(0, 0x123));
    assert!(config.should_process_frame(99, 0xFFFFFFFF));
}

#[test]
fn new_config_has_nothing_switched_on() {
    let config = DecoderConfig::new();
    assert!(!config.decode_signals);
    assert!(config.cantp_pairs.is_empty());
    assert!(config.container_ids.is_empty());
    assert_eq!(config.channel_filter, None);
    assert_eq!(config.message_filter, None);
    assert!(!config.emit_raw_frames);
    assert!(!config.cantp_auto_detect);
    assert_eq!(config.cantp_timeout_ms, 0);
    assert_eq!(config.cantp_max_wait_frames, 0);
}

#[test]
fn named_pair_keeps_its_name() {
    let config = DecoderConfig::new()
        .add_cantp_pair(1, 2)
        .add_named_cantp_pair(3, 4, "Engine");
    assert_eq!(config.cantp_pairs[0], CanTpPair::new(1, 2));
    assert_eq!(config.cantp_pairs[1].source, 3);
    assert_eq!(config.cantp_pairs[1].target, 4);
    assert_eq!(config.cantp_pairs[1].name, Some("Engine".to_string()));
    assert_eq!(CanTpPair::with_name(3, 4, "Engine"), config.cantp_pairs[1]);
}

#[test]
fn builders_set_one_field_each() {
    let config = DecoderConfig::new().with_raw_frames(true).with_message_filter(vec![7]);
    assert!(config.emit_raw_frames);
    assert!(!config.decode_signals);
    assert!(config.should_process_channel(200));
    assert!(config.should_process_message(7));
    assert!(!config.should_process_message(8));
    let off = config.with_raw_frames(false).with_signal_decoding(false);
    assert!(!off.emit_raw_frames);
    assert_eq!(off.message_filter, Some(vec![7]));
}

#[test]
fn defaults_of_a_settings_file() {
    assert!(can_log_decoder::config::default_true());
    assert_eq!(can_log_decoder::config::default_cantp_timeout(), 1000);
    assert_eq!(can_log_decoder::config::default_max_wait_frames(), 10);
}
