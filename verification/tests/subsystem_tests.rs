//! The smaller kernel subsystems: string helpers, configuration, logging,
//! users, tasks, clock values and pointer state.

use kernel::config::{ConfigManager, ConfigValue};
use kernel::errors::{KernelError, MemoryError};
use kernel::logger::{LogEntry, LogLevel, LogTarget, Logger};
use kernel::mouse::{MouseButtons, MouseState};
use kernel::rtc::DateTime;
use kernel::ramdisk::RamDisk;
use kernel::simple_fs::{FileEntry, SimpleFileSystem};
use kernel::storage;
use kernel::strutil;
use kernel::task::{Task, TaskContext, TaskId, TaskState};
use kernel::user::UserManager;
use kernel::vfs::Metadata;
use kernel::vga::Color;

#[test]
fn decimal_formatting() {
    assert_eq!(strutil::u64_to_string(0), "0");
    assert_eq!(strutil::u64_to_string(1234), "1234");
    assert_eq!(strutil::u64_to_string(u64::MAX), "18446744073709551615");
    assert_eq!(strutil::i64_to_string(-5), "-5");
    assert_eq!(strutil::i64_to_string(i64::MIN), "-9223372036854775808");
    assert_eq!(strutil::dec_len(999), 3);
    let mut s = String::new();
    strutil::append_u64_pad(&mut s, 7, 4);
    assert_eq!(s, "0007");
}

#[test]
fn integer_parsing_matches_library_semantics() {
    assert_eq!(strutil::parse_i64("0"), Some(0));
    assert_eq!(strutil::parse_i64("-42"), Some(-42));
    assert_eq!(strutil::parse_i64("+42"), Some(42));
    assert_eq!(strutil::parse_i64("9223372036854775807"), Some(i64::MAX));
    assert_eq!(strutil::parse_i64("-9223372036854775808"), Some(i64::MIN));
    assert_eq!(strutil::parse_i64("9223372036854775808"), None);
    assert_eq!(strutil::parse_i64(""), None);
    assert_eq!(strutil::parse_i64("-"), None);
    assert_eq!(strutil::parse_i64("12a"), None);
    assert_eq!(strutil::parse_i64(" 12"), None);
}

#[test]
fn string_helpers() {
    assert_eq!(strutil::trim("  hello\t "), "hello");
    assert_eq!(strutil::trim("\r\n"), "");
    assert!(strutil::str_is_prefix("/data", "/database"));
    assert!(!strutil::str_is_prefix("/datax", "/data"));
    assert!(strutil::str_eq("abc", "abc"));
    assert!(!strutil::str_eq("abc", "abd"));
    assert!(strutil::str_eq_ignore_case("TrUe", "true"));
    assert!(!strutil::str_eq_ignore_case("true", "truey"));
    assert_eq!(strutil::find_char("k=v", '='), Some(1));
    assert_eq!(strutil::find_char("kv", '='), None);
    let pieces = strutil::split_char("a\nb\n", '\n');
    let views: Vec<&str> = pieces.iter().map(|s| s.as_str()).collect();
    assert_eq!(views, vec!["a", "b", ""]);
    let bytes = vec![104u8, 105u8];
    assert_eq!(strutil::ascii_bytes_to_string(&bytes, 2).unwrap(), "hi");
    let bad = vec![104u8, 200u8];
    assert!(strutil::ascii_bytes_to_string(&bad, 2).is_none());
}

#[test]
fn config_values_and_classification() {
    assert_eq!(ConfigValue::integer(-7).as_string(), "-7");
    assert_eq!(ConfigValue::boolean(true).as_string(), "true");
    assert_eq!(ConfigValue::string("x").as_string(), "x");
    assert_eq!(ConfigValue::integer(3).try_as_integer(), Some(3));
    assert_eq!(ConfigValue::boolean(false).try_as_boolean(), Some(false));
    assert!(ConfigValue::string("s").try_as_string().is_some());
    assert!(ConfigValue::integer(3).try_as_boolean().is_none());

    assert!(matches!(kernel::config::value_of_str("TRUE"), ConfigValue::Boolean(true)));
    assert!(matches!(kernel::config::value_of_str("false"), ConfigValue::Boolean(false)));
    assert!(matches!(kernel::config::value_of_str("123"), ConfigValue::Integer(123)));
    assert!(matches!(kernel::config::value_of_str("12x"), ConfigValue::String(_)));
}

#[test]
fn config_set_get_remove() {
    let mut cfg = ConfigManager::new();
    assert!(cfg.get("missing").is_none());
    cfg.set("k", ConfigValue::integer(1));
    cfg.set("k", ConfigValue::integer(2));
    match cfg.get("k") {
        Some(ConfigValue::Integer(v)) => assert_eq!(*v, 2),
        other => panic!("unexpected: {:?}", other),
    }
    let removed = cfg.remove("k");
    assert!(matches!(removed, Some(ConfigValue::Integer(2))));
    assert!(cfg.get("k").is_none());
    assert!(cfg.remove("k").is_none());
}

#[test]
fn config_defaults_and_boot_options() {
    let mut cfg = ConfigManager::new();
    cfg.set_defaults();
    match cfg.get("system.name") {
        Some(ConfigValue::String(s)) => assert_eq!(s, "UniverseK OS"),
        other => panic!("unexpected: {:?}", other),
    }
    match cfg.get("network.enabled") {
        Some(ConfigValue::Boolean(b)) => assert!(!*b),
        other => panic!("unexpected: {:?}", other),
    }
    assert!(!cfg.is_boot_option_enabled("verbose"));
    cfg.set_boot_option("verbose", true);
    assert!(cfg.is_boot_option_enabled("verbose"));
    cfg.set_boot_option("verbose", false);
    assert!(!cfg.is_boot_option_enabled("verbose"));
}

#[test]
fn config_saves_and_loads_through_the_vfs() {
    let mut s = storage::init().unwrap();
    s.vfs.create_directory("/System/Library").unwrap();
    let mut cfg = ConfigManager::new();
    cfg.set("alpha", ConfigValue::integer(7));
    cfg.set("beta", ConfigValue::boolean(true));
    cfg.set("gamma", ConfigValue::string("words here"));
    cfg.save(&mut s.vfs).unwrap();

    let mut loaded = ConfigManager::new();
    loaded.load(&s.vfs).unwrap();
    assert!(matches!(loaded.get("alpha"), Some(ConfigValue::Integer(7))));
    assert!(matches!(loaded.get("beta"), Some(ConfigValue::Boolean(true))));
    match loaded.get("gamma") {
        Some(ConfigValue::String(v)) => assert_eq!(v, "words here"),
        other => panic!("unexpected: {:?}", other),
    }
}

#[test]
fn config_load_of_missing_file_uses_defaults() {
    let s = storage::init().unwrap();
    let mut cfg = ConfigManager::new();
    cfg.load(&s.vfs).unwrap();
    assert!(cfg.get("system.name").is_some());
}

#[test]
fn logger_filters_below_threshold_and_keeps_entries() {
    let mut log = Logger::new();
    log.debug("mod", "dropped at the default threshold");
    assert_eq!(log.get_entries().len(), 0);
    log.info("mod", "kept");
    log.error("mod", "kept too");
    assert_eq!(log.get_entries().len(), 2);
    log.set_min_level(LogLevel::Critical);
    log.warning("mod", "dropped");
    assert_eq!(log.get_entries().len(), 2);
    log.critical("mod", "kept");
    assert_eq!(log.get_entries().len(), 3);
    log.clear();
    assert_eq!(log.get_entries().len(), 0);
    log.set_min_level(LogLevel::Debug);
    log.set_target(LogTarget::Memory);
    log.log(LogLevel::Info, "m", "x");
    assert_eq!(log.get_entries().len(), 1);
}

#[test]
fn log_entry_formatting() {
    let e = LogEntry::new(LogLevel::Info, "fs", "mounted");
    assert_eq!(e.format(), "[0000.000] INFO     fs: mounted");
    let e = LogEntry::new(LogLevel::Critical, "core", "bad");
    assert_eq!(e.format(), "[0000.000] CRITICAL core: bad");
    assert_eq!(LogLevel::Warning.as_str(), "WARNING");
    assert_eq!(LogLevel::Error.color(), Color::LightRed);
}

#[test]
fn user_manager_accounts() {
    let mut s = storage::init().unwrap();
    s.vfs.create_directory("/Users").unwrap();
    let mut um = UserManager::new();
    um.init().unwrap();
    assert!(um.get_user_by_name("root").is_some());
    assert_eq!(um.get_user_by_id(1).unwrap().username, "system");
    um.add_user(&mut s.vfs, "alice", "Alice").unwrap();
    let alice = um.get_user_by_name("alice").unwrap();
    assert_eq!(alice.uid, 1000);
    assert_eq!(alice.home_dir, "/Users/alice");
    assert_eq!(alice.full_name, "Alice");
    assert_eq!(
        um.add_user(&mut s.vfs, "alice", "Alice Again"),
        Err(KernelError::AlreadyExists)
    );
    assert!(um.get_current_user().is_none());
    um.set_current_user(1000).unwrap();
    assert_eq!(um.get_current_user().unwrap().username, "alice");
    assert_eq!(um.set_current_user(42), Err(KernelError::NotFound));
    // the home tree was materialized through the VFS
    assert!(s.vfs.metadata("/Users/alice/Documents").is_ok());
    assert!(s.vfs.metadata("/Users/alice/Library/Preferences").is_ok());
}

#[test]
fn user_default_setup() {
    let mut s = storage::init().unwrap();
    let mut um = UserManager::new();
    um.run_new_user_setup(&mut s.vfs).unwrap();
    assert_eq!(um.get_current_user().unwrap().username, "user");
    // a second run finds the user already present and leaves it signed in
    um.run_new_user_setup(&mut s.vfs).unwrap();
}

#[test]
fn filesystem_setup_creates_the_standard_tree() {
    let mut s = storage::init().unwrap();
    kernel::user::setup_filesystem(&mut s.vfs).unwrap();
    assert!(s.vfs.metadata("/System").is_ok());
    assert!(s.vfs.metadata("/tmp").is_ok());
    let mut buf = vec![0u8; 7];
    let n = storage::direct_read_file(&s.vfs, "/welcome.txt", &mut buf).unwrap();
    assert_eq!(n, 7);
    assert_eq!(&buf, b"Welcome");
}

#[test]
fn tasks_hold_state_and_context() {
    let ctx = TaskContext::new(0x1000, 0x2000);
    assert_eq!(ctx.rip, 0x1000);
    assert_eq!(ctx.rsp, 0x2000);
    assert_eq!(ctx.rbp, 0x2000);
    assert_eq!(ctx.rflags, 0x202);
    assert_eq!(ctx.rax, 0);
    let mut task = Task::new(7, ctx);
    assert_eq!(task.id(), 7);
    assert_eq!(task.state(), TaskState::Runnable);
    task.set_state(TaskState::Running);
    assert_eq!(task.state(), TaskState::Running);
    assert_eq!(task.context().rip, 0x1000);
    task.context_mut().rip = 0x3000;
    assert_eq!(task.context().rip, 0x3000);
    assert_eq!(TaskId::new(9).0, 9);
}

#[test]
fn datetime_formatting() {
    let dt = DateTime::new();
    assert_eq!(dt.format(), "2000-01-01 00:00:00");
    let dt = DateTime { second: 5, minute: 7, hour: 23, day: 31, month: 12, year: 2024 };
    assert_eq!(dt.format(), "2024-12-31 23:07:05");
}

#[test]
fn mouse_buttons_decode() {
    let st = MouseState::new();
    assert!(!st.left_button() && !st.right_button() && !st.middle_button());
    let st = MouseState { x: 3, y: -2, buttons: 0b101 };
    assert!(st.left_button());
    assert!(!st.right_button());
    assert!(st.middle_button());
    let b = MouseButtons::from_bits(0b011);
    assert!(b.left && b.right && !b.middle);
    let b = MouseButtons::new();
    assert!(!b.left && !b.right && !b.middle);
}

#[test]
fn kernel_error_descriptions() {
    assert_eq!(KernelError::NotFound.to_str(), "Not found");
    assert_eq!(KernelError::DirectoryNotEmpty.to_str(), "Directory not empty");
    assert_eq!(
        KernelError::MemoryError(MemoryError::HeapInitFailed).to_str(),
        "Memory error"
    );
    assert_eq!(
        kernel::errors::validate_memory_subsystem(false),
        Err(KernelError::MemoryError(MemoryError::HeapInitFailed))
    );
    assert!(kernel::errors::validate_memory_subsystem(true).is_ok());
    assert!(kernel::errors::validate_interrupt_system().is_ok());
    assert!(kernel::errors::perform_system_checks(true).is_ok());
    assert!(kernel::errors::perform_system_checks(false).is_err());
}

#[test]
fn metadata_defaults() {
    let f = Metadata::new_file();
    assert_eq!(f.size, 0);
    assert_eq!(f.permissions, 0b0010_0111);
    let d = Metadata::new_directory();
    assert_eq!(d.permissions, 0b0111_1111);
}

#[test]
fn simple_filesystem_basics() {
    let disk = RamDisk::new().unwrap();
    let mut fs = SimpleFileSystem::new(disk).unwrap();
    // the initial layout
    let listing = fs.list_directory("/etc").unwrap();
    assert_eq!(listing, vec!["/etc/version".to_string()]);
    assert_eq!(fs.read_file("/etc/version").unwrap().as_slice(), b"BearOS v0.1");

    fs.mkdir("/home/user").unwrap();
    assert_eq!(fs.mkdir("/home/user"), Err("Directory already exists"));
    assert_eq!(fs.mkdir("/missing/sub"), Err("Parent directory does not exist"));

    fs.write_file("/home/user/notes", b"first").unwrap();
    fs.write_file("/home/user/notes", b"second").unwrap();
    assert_eq!(fs.read_file("/home/user/notes").unwrap().as_slice(), b"second");
    assert_eq!(fs.write_file("/nowhere/f", b"x"), Err("Parent directory does not exist"));
    assert_eq!(fs.read_file("/home"), Err("Path is a directory"));
    assert_eq!(fs.read_file("/gone"), Err("File not found"));

    let mut homes = fs.list_directory("/home").unwrap();
    homes.sort();
    assert_eq!(homes, vec!["/home/user".to_string()]);
    assert_eq!(fs.list_directory("/etc/version"), Err("Path is not a directory"));
    assert_eq!(fs.list_directory("/gone"), Err("Directory not found"));

    assert_eq!(fs.delete("/"), Err("Cannot delete root directory"));
    assert_eq!(fs.delete("/home"), Err("Directory not empty"));
    assert_eq!(fs.delete("/gone"), Err("File or directory not found"));
    fs.delete("/home/user/notes").unwrap();
    fs.delete("/home/user").unwrap();
    fs.delete("/home").unwrap();
    assert_eq!(fs.read_file("/home"), Err("File not found"));
    fs.sync().unwrap();
}

#[test]
fn file_entries_hold_content() {
    let mut f = FileEntry::new_file("/notes");
    assert_eq!(f.name(), "/notes");
    assert_eq!(f.size(), 0);
    assert!(!f.is_directory());
    f.write(b"abc");
    assert_eq!(f.size(), 3);
    assert_eq!(f.content().as_slice(), b"abc");
    f.append(b"de");
    assert_eq!(f.size(), 5);
    assert_eq!(f.content().as_slice(), b"abcde");
    f.write(b"x");
    assert_eq!(f.size(), 1);
    let d = FileEntry::new_directory("/d");
    assert!(d.is_directory());
}
