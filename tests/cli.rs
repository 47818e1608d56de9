use fs_transfer::command::{parse_args, ArgError, Command};
use fs_transfer::path::{join_path, path_to_name};

fn args(words: &[&str]) -> Vec<String> {
    words.iter().map(|w| w.to_string()).collect()
}

#[test]
fn no_command_shows_usage() {
    assert_eq!(parse_args(&args(&["fs"])), Ok(Command::Usage));
}

#[test]
fn help_command() {
    assert_eq!(parse_args(&args(&["fs", "--help"])), Ok(Command::Help));
}

#[test]
fn send_command() {
    assert_eq!(
        parse_args(&args(&["fs", "send", "192.168.1.5:3333", "photo.jpg"])),
        Ok(Command::Send { address: "192.168.1.5:3333".to_string(), path: "photo.jpg".to_string() })
    );
    assert_eq!(parse_args(&args(&["fs", "send"])), Err(ArgError::MissingAddress));
    assert_eq!(parse_args(&args(&["fs", "send", "10.0.0.1:3333"])), Err(ArgError::MissingFile));
}

#[test]
fn receive_command() {
    assert_eq!(parse_args(&args(&["fs", "rec"])), Ok(Command::Receive { output_dir: None }));
    assert_eq!(
        parse_args(&args(&["fs", "rec", "-o", "downloads"])),
        Ok(Command::Receive { output_dir: Some("downloads".to_string()) })
    );
    assert_eq!(parse_args(&args(&["fs", "rec", "-o"])), Err(ArgError::MissingOutputDir));
    assert_eq!(parse_args(&args(&["fs", "rec", "-x"])), Ok(Command::Receive { output_dir: None }));
}

#[test]
fn unknown_command() {
    assert_eq!(parse_args(&args(&["fs", "get"])), Err(ArgError::UnknownCommand));
}

#[test]
fn name_is_last_path_component() {
    assert_eq!(path_to_name(&"/home/me/photo.jpg".to_string()), "photo.jpg");
    assert_eq!(path_to_name(&"photo.jpg".to_string()), "photo.jpg");
    assert_eq!(path_to_name(&"dir/".to_string()), "");
    assert_eq!(path_to_name(&"/é/ß.txt".to_string()), "ß.txt");
}

#[test]
fn join_directory_and_name() {
    assert_eq!(join_path("/rec", "a.txt"), "/rec/a.txt");
    assert_eq!(join_path("", "a.txt"), "/a.txt");
}
