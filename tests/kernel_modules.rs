use kmon::cmd::ModuleCommand;
use kmon::lkm::{module_read_command, parse_module_line, KernelModules, LoadError, ScrollDirection};
use kmon::style::{StyledText, TextStyle};
use kmon::text::{break_after_signature, parse_decimal, split_lines, split_on, split_words};

const MODULES: &str = "ext4 737280 3 - Live 0xffffffffc1234000\n\
vfat 20480 1 ext4, Live 0xffffffffc0a00000\n\
msdos 20480 0 - Live 0xffffffffc0b00000\n";

const TABLE: &str = "ext4 737280 3 vfat,msdos, Live 0xffffffffc1234000\n\
vfat 20480 1 - Live 0xffffffffc0a00000\n\
msdos 20480 0 - Live 0xffffffffc0b00000\n";

const MODINFO: &str = "filename:       /lib/modules/ext4.ko\nlicense:        GPL\nsignature:      AB:CD:EF\n";

fn loaded(content: &str) -> KernelModules {
    let mut km = KernelModules::new(content, false).unwrap();
    if !km.list.is_empty() {
        km.set_module_info(Some(MODINFO.to_string()));
    }
    km
}

#[test]
fn test_kernel_modules() {
    let kernel_modules = loaded(MODULES);
    assert_eq!(0, kernel_modules.index);
    assert_ne!(0, kernel_modules.default_list.len());
    assert_ne!(0, kernel_modules.current_name.len());
    assert_ne!(0, kernel_modules.current_info.lines());
}

#[test]
fn load_keeps_both_lists_and_selects_first() {
    let km = loaded(MODULES);
    assert_eq!(km.list.len(), 3);
    assert_eq!(km.default_list, km.list);
    assert_eq!(km.current_name, "ext4");
    assert_eq!(km.command, ModuleCommand::NoCommand);
    assert_eq!(km.info_scroll_offset, 0);
}

#[test]
fn load_reversed() {
    let km = KernelModules::new(MODULES, true).unwrap();
    assert_eq!(km.list[0][0], "msdos");
    assert_eq!(km.list[2][0], "ext4");
    assert_eq!(km.current_name, "msdos");
    assert_eq!(km.default_list, km.list);
}

#[test]
fn load_reports_bad_rows() {
    assert_eq!(KernelModules::new("ext4 12\n", false).err(), Some(LoadError::MissingColumns));
    assert_eq!(KernelModules::new("ext4 abc 0 -\n", false).err(), Some(LoadError::InvalidSize));
    assert_eq!(
        parse_module_line("ext4 18446744073709551616 0 -").err(),
        Some(LoadError::InvalidSize)
    );
}

#[test]
fn parse_example_row() {
    let record = parse_module_line("ext4 737280 3 vfat,msdos, Live 0xffffffffc1234000").unwrap();
    assert_eq!(record[0], "ext4");
    assert_eq!(record[1], "737.3 KB");
    assert_eq!(record[2], "3 vfat,msdos");
}

#[test]
fn parse_row_with_status_column() {
    let record =
        parse_module_line("nvidia 35000000 5 nvidia_modeset, Live 0xffffffffc0000000 (POE)")
            .unwrap();
    assert_eq!(record[0], "nvidia (POE)");
    assert_eq!(record[1], "35.0 MB");
    assert_eq!(record[2], "5 nvidia_modeset");
}

#[test]
fn parse_row_with_three_columns_and_small_size() {
    let record = parse_module_line("tiny 512 0").unwrap();
    assert_eq!(record[0], "tiny");
    assert_eq!(record[1], "512 B");
    assert_eq!(record[2], "0 ");
}

#[test]
fn wrap_around_both_ends() {
    let mut km = loaded(MODULES);
    for _ in 0..3 {
        assert!(km.scroll_list(ScrollDirection::Down));
    }
    assert_eq!(km.index, 0);
    km.scroll_list(ScrollDirection::Up);
    assert_eq!(km.index, 2);
    assert_eq!(km.current_name, "msdos");
    km.scroll_list(ScrollDirection::Top);
    assert_eq!(km.index, 0);
    km.scroll_list(ScrollDirection::Bottom);
    assert_eq!(km.index, 2);
}

#[test]
fn next_and_previous_module() {
    let mut km = loaded(MODULES);
    km.next_module();
    assert_eq!(km.index, 1);
    km.previous_module();
    km.previous_module();
    assert_eq!(km.index, 2);
    km.next_module();
    assert_eq!(km.index, 0);
}

#[test]
fn empty_list_is_safe() {
    let mut km = KernelModules::new("", false).unwrap();
    assert!(km.list.is_empty());
    assert!(!km.scroll_list(ScrollDirection::Up));
    assert!(!km.scroll_list(ScrollDirection::Bottom));
    km.scroll_mod_info(ScrollDirection::Down, false);
    km.scroll_mod_info(ScrollDirection::Up, true);
    km.set_current_command(ModuleCommand::Unload);
    assert!(!km.show_used_module_info(0));
    assert_eq!(km.index, 0);
}

#[test]
fn info_scroll_floor_and_wrap() {
    let mut km = loaded(MODULES);
    let lines = km.current_info.lines();
    assert_eq!(lines, 4);
    km.scroll_mod_info(ScrollDirection::Up, true);
    assert_eq!(km.info_scroll_offset, 0);
    let mut seen = Vec::new();
    for _ in 0..4 {
        km.scroll_mod_info(ScrollDirection::Down, false);
        seen.push(km.info_scroll_offset);
    }
    assert_eq!(seen, vec![2, 4, 6, 0]);
    km.scroll_mod_info(ScrollDirection::Down, true);
    assert_eq!(km.info_scroll_offset, 1);
    km.scroll_mod_info(ScrollDirection::Up, false);
    assert_eq!(km.info_scroll_offset, 0);
    km.scroll_mod_info(ScrollDirection::Top, false);
    assert_eq!(km.info_scroll_offset, 0);
}

#[test]
fn info_scroll_without_lines_stays() {
    let mut km = KernelModules::new(MODULES, false).unwrap();
    assert_eq!(km.current_info.lines(), 0);
    km.scroll_mod_info(ScrollDirection::Down, false);
    assert_eq!(km.info_scroll_offset, 0);
}

#[test]
fn staged_command_cleared_by_move() {
    let mut km = loaded(MODULES);
    km.set_current_command(ModuleCommand::Load);
    assert_eq!(km.command, ModuleCommand::Load);
    assert_eq!(km.current_info.lines(), 5);
    assert_eq!(km.get_current_command().cmd, "modprobe ext4");
    assert_eq!(km.current_info.segments[1].text, "modprobe ext4");
    assert_eq!(km.current_info.segments[1].style, TextStyle::Emphasis);
    assert_eq!(
        km.current_info.segments[0].text,
        "\nExecute the following command? [y/N]:\n\n"
    );
    assert_eq!(km.current_info.segments[2].text, "\n\nInsert the module into the kernel.");
    km.scroll_list(ScrollDirection::Down);
    assert_eq!(km.command, ModuleCommand::NoCommand);
}

#[test]
fn executing_clears_staged_command() {
    let mut km = loaded(MODULES);
    km.set_current_command(ModuleCommand::Unload);
    assert!(km.exec_current_command(Ok(String::new())));
    assert_eq!(km.command, ModuleCommand::NoCommand);
    assert_eq!(km.current_info.lines(), 5);

    km.set_current_command(ModuleCommand::Reload);
    assert!(!km.exec_current_command(Err("permission denied".to_string())));
    assert_eq!(km.command, ModuleCommand::NoCommand);
    assert_eq!(km.current_info.lines(), 3);
    assert_eq!(km.current_info.segments[0].text, "\nFailed to execute command: ");
    assert_eq!(
        km.current_info.segments[1].text,
        "'modprobe -r ext4 && modprobe ext4'\n\npermission denied"
    );

    assert!(!km.exec_current_command(Ok(String::new())));
    assert_eq!(km.current_info.lines(), 3);
}

#[test]
fn command_lines() {
    assert_eq!(ModuleCommand::Load.get("vfat").cmd, "modprobe vfat");
    assert_eq!(ModuleCommand::Unload.get("vfat").cmd, "modprobe -r vfat");
    assert_eq!(
        ModuleCommand::Blacklist.get("vfat").cmd,
        "echo 'blacklist vfat' >> /etc/modprobe.d/blacklist.conf"
    );
    assert_eq!(ModuleCommand::NoCommand.get("vfat").cmd, "");
    assert!(ModuleCommand::NoCommand.is_none());
    assert!(!ModuleCommand::Load.is_none());
}

#[test]
fn jump_to_dependent() {
    let mut km = loaded(TABLE);
    assert!(km.show_used_module_info(1));
    assert_eq!(km.index, 2);
    assert_eq!(km.current_name, "msdos");
    km.scroll_list(ScrollDirection::Top);
    assert!(km.show_used_module_info(0));
    assert_eq!(km.index, 1);
    assert_eq!(km.current_name, "vfat");
}

#[test]
fn jump_to_first_entry_wraps_correctly() {
    let table = "vfat 20480 1 - Live 0x0\next4 737280 3 vfat, Live 0x0\n";
    let mut km = loaded(table);
    km.scroll_list(ScrollDirection::Down);
    assert!(km.show_used_module_info(0));
    assert_eq!(km.index, 0);
    assert_eq!(km.current_name, "vfat");
}

#[test]
fn dependent_slot_beyond_is_no_op() {
    let mut km = loaded(TABLE);
    km.set_current_command(ModuleCommand::Load);
    assert!(!km.show_used_module_info(2));
    assert!(!km.show_used_module_info(7));
    assert_eq!(km.index, 0);
    assert_eq!(km.command, ModuleCommand::Load);
    km.scroll_list(ScrollDirection::Down);
    assert!(!km.show_used_module_info(0));
    assert_eq!(km.index, 1);
}

#[test]
fn dependent_not_listed_keeps_index() {
    let table = "ext4 737280 1 jbd2, Live 0x0\nvfat 20480 0 - Live 0x0\n";
    let mut km = loaded(table);
    assert!(km.show_used_module_info(0));
    assert_eq!(km.index, 0);
}

#[test]
fn read_command_variants() {
    assert_eq!(module_read_command(false, false), "cat /proc/modules");
    assert_eq!(
        module_read_command(true, true),
        "cat /proc/modules | sort -n -r -t ' ' -k2"
    );
    assert_eq!(module_read_command(false, true), "cat /proc/modules | sort -t ' ' -k1");
}

#[test]
fn module_info_styling() {
    let mut km = loaded(MODULES);
    let segs = &km.current_info.segments;
    assert_eq!(segs[0].text, "filename:");
    assert_eq!(segs[0].style, TextStyle::Key);
    assert_eq!(segs[1].text, "       /lib/modules/ext4.ko\n");
    assert_eq!(segs[1].style, TextStyle::Plain);
    assert_eq!(segs[4].text, "signature:");
    assert_eq!(segs[5].text, " \n");
    assert_eq!(segs[6].text, "     AB:");
    assert_eq!(segs[7].text, "CD:EF\n");
    km.set_module_info(None);
    assert_eq!(km.current_info.lines(), 1);
    assert_eq!(km.current_info.segments.len(), 1);
    assert_eq!(km.current_info.segments[0].text, "failed to retrieve module information\n");
}

#[test]
fn styled_text_basics() {
    let mut t = StyledText::new();
    assert_eq!(t.lines(), 0);
    t.stylize_data("plain line\nkey: value", ':');
    assert_eq!(t.lines(), 2);
    assert_eq!(t.segments.len(), 3);
    assert_eq!(t.segments[0].text, "plain line\n");
    assert_eq!(t.segments[1].text, "key:");
    assert_eq!(t.segments[2].text, " value\n");
    t.stylize_data("", ':');
    assert_eq!(t.lines(), 0);
}

#[test]
fn text_helpers() {
    assert_eq!(split_words("  a\tbc  d "), vec!["a", "bc", "d"]);
    assert_eq!(split_on("a,,b,", ','), vec!["a", "", "b", ""]);
    assert_eq!(split_lines("x\ny\n"), vec!["x", "y"]);
    assert_eq!(split_lines("x\n\ny"), vec!["x", "", "y"]);
    assert!(split_lines("").is_empty());
    assert_eq!(parse_decimal("18446744073709551615"), Some(u64::MAX));
    assert_eq!(parse_decimal("18446744073709551616"), None);
    assert_eq!(parse_decimal("12a"), None);
    assert_eq!(parse_decimal(""), None);
    assert_eq!(
        break_after_signature("signature: AB signature: CD"),
        "signature: \nAB signature: \nCD"
    );
    assert_eq!(break_after_signature("no marker"), "no marker");
}
