use heystack::config::Config;
use heystack::error::StorageError;
use heystack::init::options::{get_options, Options};
use heystack::init::start::{deal_with_options, show_usage, Action};
use heystack::master::load_index_file;
use heystack::storage::index::IndexFile;
use heystack::storage::item::IndexFileItem;

fn words(line: &[&str]) -> Vec<String> {
    line.iter().map(|word| word.to_string()).collect()
}

#[test]
fn fresh_options_ask_for_nothing() {
    let options = Options::new();
    assert!(!options.help);
    assert!(!options.start);
    assert!(!options.reload);
    assert!(!options.show);
    assert!(!options.stop);
    assert!(!options.empty);
    assert!(options.unknown.is_empty());
    assert_eq!(deal_with_options(&options), Action::Nothing);
}

#[test]
fn no_word_is_an_empty_command_line() {
    let options = get_options(words(&["heystack"]));
    assert!(options.empty);
    assert!(!options.help && !options.start && !options.reload);
    assert_eq!(deal_with_options(&options), Action::RejectEmpty);
}

#[test]
fn words_set_their_options() {
    let options = get_options(words(&["heystack", "h"]));
    assert!(options.help && !options.start && !options.reload && !options.empty);
    assert_eq!(deal_with_options(&options), Action::ShowUsage);
    let options = get_options(words(&["heystack", "help"]));
    assert!(options.help);
    let options = get_options(words(&["heystack", "s"]));
    assert!(options.start && !options.help && !options.reload);
    assert_eq!(deal_with_options(&options), Action::Start);
    let options = get_options(words(&["heystack", "start"]));
    assert!(options.start);
    let options = get_options(words(&["heystack", "r"]));
    assert!(options.reload && !options.help && !options.start);
    assert_eq!(deal_with_options(&options), Action::Reload);
    let options = get_options(words(&["heystack", "reload"]));
    assert!(options.reload);
}

#[test]
fn show_and_stop_are_taken_as_reload() {
    let options = get_options(words(&["heystack", "show"]));
    assert!(options.reload && !options.show && !options.stop);
    let options = get_options(words(&["heystack", "stop"]));
    assert!(options.reload && !options.show && !options.stop);
    assert_eq!(deal_with_options(&options), Action::Reload);
}

#[test]
fn other_words_are_unknown() {
    let options = get_options(words(&["h", "x", "start", "", "help ", "H", "x"]));
    assert_eq!(options.unknown, words(&["x", "", "help ", "H", "x"]));
    assert!(options.start && !options.help && !options.reload && !options.empty);
    assert_eq!(deal_with_options(&options), Action::RejectUnknown);
}

#[test]
fn the_first_action_that_applies_is_taken() {
    let mut options = Options::new();
    options.show = true;
    assert_eq!(deal_with_options(&options), Action::Show);
    options.reload = true;
    assert_eq!(deal_with_options(&options), Action::Reload);
    options.stop = true;
    assert_eq!(deal_with_options(&options), Action::Stop);
    options.start = true;
    assert_eq!(deal_with_options(&options), Action::Start);
    options.help = true;
    assert_eq!(deal_with_options(&options), Action::ShowUsage);
    options.empty = true;
    assert_eq!(deal_with_options(&options), Action::RejectEmpty);
    options.unknown.push(String::from("what"));
    assert_eq!(deal_with_options(&options), Action::RejectUnknown);
}

#[test]
fn the_usage_page_names_every_word() {
    let lines = show_usage();
    assert_eq!(
        lines,
        vec![
            "HeyStack\n",
            "Arguments:",
            "  h, help     Show the usage page",
            "  s, start    Start the HeyStack service",
            "  show        Show the config file",
            "  r, reload   Reload program from config file",
            "  stop        Stop the program",
        ]
    );
}

#[test]
fn a_fresh_config_has_the_usual_values() {
    let config = Config::new(4711);
    assert_eq!(config.cpid, 4711);
    assert_eq!(config.tpid, 0);
    assert_eq!(config.pid_file, "heystack.pid");
    assert_eq!(config.config_port, 10001);
    assert_eq!(config.service_port, 10002);
    assert_eq!(config.volume_name, "heystack.volume");
    assert_eq!(config.index_name, "heystack.index");
    assert_eq!(config.max_index_in_mem, 1073741824);
    assert!(!config.is_started());
}

#[test]
fn the_capacity_is_the_memory_in_entries() {
    let mut config = Config::new(1);
    assert_eq!(config.max_index_count(), 51130563);
    config.max_index_in_mem = 20;
    assert_eq!(config.max_index_count(), 0);
    config.max_index_in_mem = 21;
    assert_eq!(config.max_index_count(), 1);
    config.max_index_in_mem = 41;
    assert_eq!(config.max_index_count(), 1);
    config.max_index_in_mem = 42;
    assert_eq!(config.max_index_count(), 2);
}

#[test]
fn the_pid_file_holds_one_pid() {
    assert_eq!(Config::get_pid_from_file(&Vec::new()), Ok(None));
    assert_eq!(Config::get_pid_from_file(&vec![0x67, 0x12, 0, 0]), Ok(Some(4711)));
    assert_eq!(
        Config::get_pid_from_file(&vec![0x67, 0x12, 0, 0, 9, 9]),
        Ok(Some(4711))
    );
    assert_eq!(
        Config::get_pid_from_file(&vec![0x67, 0x12, 0]),
        Err(StorageError::TruncatedRecord)
    );
}

#[test]
fn only_a_running_service_counts() {
    let mut config = Config::new(1);
    assert!(!config.settle_pid(Some(77), true));
    assert_eq!(config.tpid, 77);
    assert!(config.is_started());
    assert!(config.settle_pid(Some(78), false));
    assert_eq!(config.tpid, 0);
    assert!(!config.is_started());
    config.tpid = 5;
    assert!(!config.settle_pid(None, true));
    assert_eq!(config.tpid, 0);
    config.tpid = 5;
    assert!(!config.settle_pid(None, false));
    assert_eq!(config.tpid, 0);
    assert_eq!(config.cpid, 1);
}

#[test]
fn the_main_service_writes_its_pid() {
    let mut config = Config::new(4711);
    let mut file: Vec<u8> = Vec::new();
    config.as_main_service(&mut file);
    assert_eq!(config.tpid, 4711);
    assert!(config.is_started());
    assert_eq!(file, vec![0x67, 0x12, 0, 0]);
    let mut longer: Vec<u8> = vec![1, 2, 3, 4, 5, 6];
    config.as_main_service(&mut longer);
    assert_eq!(longer, vec![0x67, 0x12, 0, 0, 5, 6]);
    let mut shorter: Vec<u8> = vec![1, 2];
    config.as_main_service(&mut shorter);
    assert_eq!(shorter, vec![0x67, 0x12, 0, 0]);
    assert_eq!(Config::get_pid_from_file(&shorter), Ok(Some(4711)));
}

#[test]
fn reloading_writes_the_rebuilt_index() {
    let mut volume: Vec<u8> = Vec::new();
    let mut table = IndexFile::new(Vec::new(), 9, String::from("i"), String::from("v"));
    table.add_item(&b"hello".to_vec(), &mut volume).unwrap();
    table.add_item(&b"world!".to_vec(), &mut volume).unwrap();
    table.delete_item(0, &mut volume).unwrap();
    let mut config = Config::new(1);
    let mut index: Vec<u8> = vec![9; 50];
    assert_eq!(config.reload_index_file(&volume, &mut index), Ok(()));
    assert_eq!(index.len(), 21);
    assert_eq!(
        load_index_file(&index),
        Ok(vec![IndexFileItem {
            key: 1,
            flag: true,
            offset: 18,
            size: 6
        }])
    );
    // a volume that cannot be scanned leaves the index file alone
    volume.pop();
    assert_eq!(
        config.reload_index_file(&volume, &mut index),
        Err(StorageError::CorruptRecord)
    );
    assert_eq!(index.len(), 21);
}
