use lib::framebuffer::{Framebuffer, Ui, UiAction};
use lib::shell::Shell;
use lib::uefi::{buffer_too_small, is_error, not_ready, BlockMedia, InputKey, MacAddress, SimpleNetworkMode, SUCCESS};
use lib::workspace::installer::{DiskWork, Installation, Installer, IMAGE_BLOCKS};
use lib::workspace::{
    firmware_shortcut, key_byte, pointer_delta, received_length, snp_address, workspace_command,
    TransmitBuffers, WorkspaceCommand,
};

fn console() -> Ui {
    Ui::new(Framebuffer::unavailable(), "AMD64 UEFI")
}

fn text(ui: &mut Ui) -> String {
    String::from_utf8(ui.take_serial()).unwrap()
}

fn medium(removable: bool, last_block: u64, media_id: u32) -> Option<BlockMedia> {
    Some(BlockMedia {
        media_id,
        removable_media: removable as u8,
        media_present: 1,
        logical_partition: 0,
        read_only: 0,
        write_caching: 0,
        block_size: 512,
        io_align: 0,
        last_block,
        lowest_aligned_lba: 0,
        logical_blocks_per_physical_block: 1,
        optimal_transfer_length_granularity: 0,
    })
}

fn command(line: &str) -> WorkspaceCommand {
    let mut shell = Shell::new();
    for byte in line.bytes() {
        shell.feed(byte);
    }
    workspace_command(&shell)
}

#[test]
fn status_codes() {
    assert!(!is_error(SUCCESS));
    assert!(is_error(not_ready()));
    assert!(is_error(buffer_too_small()));
    assert_eq!(not_ready() & 0xff, 6);
    assert_eq!(buffer_too_small(), (1usize << (usize::BITS - 1)) | 5);
    assert!(!is_error(usize::MAX / 2));
}

#[test]
fn pointer_movement_is_scaled() {
    assert_eq!(pointer_delta(0), 0);
    assert_eq!(pointer_delta(3), 1);
    assert_eq!(pointer_delta(-3), -1);
    assert_eq!(pointer_delta(17), 2);
    assert_eq!(pointer_delta(-17), -2);
    assert_eq!(pointer_delta(1000), 48);
    assert_eq!(pointer_delta(-1000), -48);
    assert_eq!(pointer_delta(i32::MIN), -48);
    assert_eq!(pointer_delta(i32::MAX), 48);
}

#[test]
fn firmware_keys() {
    let key = |scan_code: u16, unicode_char: u16| InputKey { scan_code, unicode_char };
    assert_eq!(key_byte(key(0, b'a' as u16)), b'a');
    assert_eq!(key_byte(key(0, 0x7f)), 0x7f);
    assert_eq!(key_byte(key(0, 0xe9)), 0);
    assert_eq!(firmware_shortcut(key(0x0b, 0)), UiAction::Launcher);
    assert_eq!(firmware_shortcut(key(0x0c, 0)), UiAction::Terminal);
    assert_eq!(firmware_shortcut(key(0x0d, 0)), UiAction::Files);
    assert_eq!(firmware_shortcut(key(0x0e, 0)), UiAction::Settings);
    assert_eq!(firmware_shortcut(key(0x12, 0)), UiAction::Installer);
    assert_eq!(firmware_shortcut(key(0x01, 0)), UiAction::NoAction);
}

fn network_mode(state: u32, address: [u8; 6]) -> SimpleNetworkMode {
    let mut current = MacAddress { address: [0; 32] };
    current.address[..6].copy_from_slice(&address);
    SimpleNetworkMode {
        state,
        hardware_address_size: 6,
        media_header_size: 14,
        max_packet_size: 1500,
        nvram_size: 0,
        nvram_access_size: 0,
        receive_filter_mask: 0,
        receive_filter_setting: 0,
        max_mcast_filter_count: 0,
        mcast_filter_count: 0,
        mcast_filter: [MacAddress { address: [0; 32] }; 16],
        current_address: current,
        broadcast_address: MacAddress { address: [0xff; 32] },
        permanent_address: current,
        if_type: 1,
        mac_address_changeable: 0,
        multiple_tx_supported: 0,
        media_present_supported: 1,
        media_present: 1,
    }
}

#[test]
fn firmware_network_mode_checks() {
    let mac = [0x52, 0x54, 0, 0x12, 0x34, 0x56];
    assert_eq!(snp_address(&network_mode(2, mac)), Some(mac));
    assert_eq!(snp_address(&network_mode(1, mac)), None);
    assert_eq!(snp_address(&network_mode(2, [0; 6])), None);
    let mut unplugged = network_mode(2, mac);
    unplugged.media_present = 0;
    assert_eq!(snp_address(&unplugged), None);
    unplugged.media_present_supported = 0;
    assert_eq!(snp_address(&unplugged), Some(mac));
    assert_eq!(received_length(SUCCESS, 60, 2048), Some(60));
    assert_eq!(received_length(SUCCESS, 4000, 2048), Some(2048));
    assert_eq!(received_length(not_ready(), 60, 2048), None);
}

#[test]
fn transmit_buffers_are_reused() {
    let mut buffers = TransmitBuffers::new();
    assert_eq!(buffers.free_slot(), Some(0));
    buffers.hand_over(0);
    buffers.hand_over(1);
    assert_eq!(buffers.free_slot(), Some(2));
    buffers.hand_over(2);
    buffers.hand_over(3);
    assert_eq!(buffers.free_slot(), None);
    buffers.give_back(1);
    assert_eq!(buffers.free_slot(), Some(1));
    assert!(TransmitBuffers::fits(1600));
    assert!(!TransmitBuffers::fits(1601));
}

#[test]
fn installer_commands_are_recognised() {
    assert_eq!(command("install"), WorkspaceCommand::Install);
    assert_eq!(command("INSTALL"), WorkspaceCommand::Install);
    assert_eq!(command("install "), WorkspaceCommand::Other);
    assert_eq!(command("Install Select 2"), WorkspaceCommand::Select(2));
    assert_eq!(command("install select   +3  "), WorkspaceCommand::Select(3));
    assert_eq!(command("install select x"), WorkspaceCommand::SelectUsage);
    assert_eq!(command("install select -1"), WorkspaceCommand::SelectUsage);
    assert_eq!(command("install select  "), WorkspaceCommand::SelectUsage);
    assert_eq!(
        command("install select 99999999999999999999999"),
        WorkspaceCommand::SelectUsage
    );
    assert_eq!(command("install select "), WorkspaceCommand::Other);
    assert_eq!(command("INSTALL ERASE"), WorkspaceCommand::Erase);
    assert_eq!(command("install erase now"), WorkspaceCommand::Other);
    assert_eq!(command("help"), WorkspaceCommand::Other);
}

#[test]
fn installer_finds_source_and_targets() {
    let mut partition = medium(false, 1_000_000, 9);
    partition.as_mut().unwrap().logical_partition = 1;
    let mut read_only = medium(false, 1_000_000, 8);
    read_only.as_mut().unwrap().read_only = 1;
    let media = [
        medium(false, 2_097_151, 7),
        None,
        medium(true, 200_000, 3),
        medium(true, 200_000, 4),
        partition,
        read_only,
        medium(false, 1_000, 5),
        medium(false, 131_071, 6),
    ];
    let mut installer = Installer::discover(&media);
    assert_eq!(installer.target(), None);
    let mut ui = console();
    installer.show(&mut ui);
    assert_eq!(
        text(&mut ui),
        "Source: removable live media, 64 MiB payload ready.\nTarget candidates (selection is mandatory):\n  DISK 1: 1024 MiB, media ID 7\n  DISK 2: 64 MiB, media ID 6\n\nType INSTALL SELECT 1 (or another listed number).\n> "
    );
    installer.select(3, &mut ui);
    assert_eq!(text(&mut ui), "Installer: that disk number is not in the candidate list.\n> ");
    installer.select(0, &mut ui);
    assert_eq!(text(&mut ui), "Installer: that disk number is not in the candidate list.\n> ");
    installer.select(2, &mut ui);
    assert!(text(&mut ui).ends_with(
        "  DISK 2: 64 MiB, media ID 6  [SELECTED]\n\nDANGER: type INSTALL ERASE to overwrite only the selected disk.\n> "
    ));
    assert_eq!(installer.target(), Some(7));
    assert_eq!(installer.install(&mut ui), Some((2, 7)));
    assert_eq!(text(&mut ui), "");
}

#[test]
fn installer_without_disks_stays_read_only() {
    let installer = Installer::unavailable();
    let mut ui = console();
    assert_eq!(installer.install(&mut ui), None);
    assert_eq!(
        text(&mut ui),
        "Source: no removable BlueOS USB was found.\nTargets: no writable whole internal disk of at least 64 MiB.\n\nInstaller remains read-only. Check the media and reboot.\n> "
    );
    let no_source = Installer::discover(&[medium(false, 200_000, 1)]);
    let mut ui = console();
    assert_eq!(no_source.install(&mut ui), None);
    assert!(text(&mut ui).starts_with("Source: no removable BlueOS USB was found.\nTarget candidates"));
}

#[test]
fn installation_copies_and_verifies_every_block() {
    let mut ui = console();
    let mut installation = Installation::start(&mut ui);
    let mut copied = 0u64;
    loop {
        match installation.work() {
            DiskWork::Copy { lba, bytes } => {
                assert_eq!(lba, copied);
                assert_eq!(bytes, 128 * 512);
                copied += 128;
                installation.copied(SUCCESS, SUCCESS, &mut ui);
            }
            DiskWork::Flush => break,
            other => panic!("unexpected {:?}", other),
        }
    }
    assert_eq!(copied, IMAGE_BLOCKS);
    installation.flushed(SUCCESS, &mut ui);
    let data = vec![0x5au8; 128 * 512];
    let mut compared = 0u64;
    loop {
        match installation.work() {
            DiskWork::Compare { lba, bytes } => {
                assert_eq!(lba, compared);
                compared += (bytes / 512) as u64;
                installation.compared(SUCCESS, SUCCESS, &data[..bytes], &data[..bytes], &mut ui);
            }
            DiskWork::Done => break,
            other => panic!("unexpected {:?}", other),
        }
    }
    assert_eq!(compared, IMAGE_BLOCKS);
    let shown = text(&mut ui);
    assert!(shown.starts_with("Writing BlueOS hybrid BIOS/UEFI image...\nWrite progress: 0%\nWrite progress: 10%\n"));
    assert!(shown.contains("Write progress: 90%\nWrite complete. Starting independent read-back verification...\nVerify progress: 0%\n"));
    assert!(shown.ends_with("Verify progress: 90%\nINSTALLATION VERIFIED. Remove the USB drive and reboot.\n> "));
}

#[test]
fn installation_stops_on_errors() {
    let mut ui = console();
    let mut installation = Installation::start(&mut ui);
    installation.copied(SUCCESS, SUCCESS, &mut ui);
    installation.copied(SUCCESS, not_ready(), &mut ui);
    assert_eq!(installation.work(), DiskWork::Done);
    assert_eq!(
        text(&mut ui),
        "Writing BlueOS hybrid BIOS/UEFI image...\nWrite progress: 0%\nInstaller error: writing the destination failed.\nInstallation did not complete safely. The target may be unusable.\n> "
    );
    let mut installation = Installation::start(&mut ui);
    installation.copied(not_ready(), SUCCESS, &mut ui);
    assert!(text(&mut ui).ends_with("Installer error: reading the live USB failed.\nInstallation did not complete safely. The target may be unusable.\n> "));
    assert_eq!(installation.work(), DiskWork::Done);
}

#[test]
fn verification_reports_the_first_mismatch() {
    let mut ui = console();
    let mut installation = Installation::start(&mut ui);
    while installation.work() != DiskWork::Flush {
        installation.copied(SUCCESS, SUCCESS, &mut ui);
    }
    installation.flushed(SUCCESS, &mut ui);
    let a = vec![1u8; 128 * 512];
    let mut b = a.clone();
    installation.compared(SUCCESS, SUCCESS, &a, &a, &mut ui);
    text(&mut ui);
    b[100] = 2;
    installation.compared(SUCCESS, SUCCESS, &a, &b, &mut ui);
    assert_eq!(
        text(&mut ui),
        "VERIFICATION FAILED at LBA 128. Do not boot the destination.\nInstallation did not complete safely. The target may be unusable.\n> "
    );
    assert_eq!(installation.work(), DiskWork::Done);
    let mut failed_flush = Installation::start(&mut ui);
    while failed_flush.work() != DiskWork::Flush {
        failed_flush.copied(SUCCESS, SUCCESS, &mut ui);
    }
    text(&mut ui);
    failed_flush.flushed(not_ready(), &mut ui);
    assert_eq!(
        text(&mut ui),
        "Installer error: firmware could not flush the destination.\nInstallation did not complete safely. The target may be unusable.\n> "
    );
    Installation::allocation_failed(&mut ui);
    assert_eq!(text(&mut ui), "Installer error: firmware could not allocate transfer buffers.\n> ");
}

#[test]
fn disk_numbers_read_back() {
    for number in [0u64, 1, 9, 10, 42, 65_535, u64::MAX] {
        let digits = String::from_utf8(lib::framebuffer::format_u64(number)).unwrap();
        assert_eq!(
            command(&format!("install select {}", digits)),
            WorkspaceCommand::Select(number as usize)
        );
    }
}
