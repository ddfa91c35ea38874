use recent_paths::classify::{get_filesystem_object_list, Command};

fn scan(input: &str, home: &str, pwd: &str) -> (Command, Vec<String>) {
    let mut list: Vec<String> = Vec::new();
    let cmd = get_filesystem_object_list(input, home, pwd, &mut list);
    (cmd, list)
}

#[test]
fn detects_verbs() {
    assert_eq!(scan("cd /tmp", "/h", "/p").0, Command::Cd);
    assert_eq!(scan("cp a b", "/h", "/p").0, Command::Cp);
    assert_eq!(scan("mv a b", "/h", "/p").0, Command::Mv);
    assert_eq!(scan("scp a h:b", "/h", "/p").0, Command::Scp);
    assert_eq!(scan("ssh host", "/h", "/p").0, Command::Ssh);
    assert_eq!(scan("rm a", "/h", "/p").0, Command::Rm);
    assert_eq!(scan("rmdir a", "/h", "/p").0, Command::Rmdir);
    assert_eq!(scan("ls a", "/h", "/p").0, Command::Etc);
}

#[test]
fn sudo_prefix_is_skipped_once() {
    let (cmd, list) = scan("sudo cp a b", "/h", "/p");
    assert_eq!(cmd, Command::Cp);
    assert_eq!(list, vec!["/p/a", "/p/b"]);
}

#[test]
fn command_name_is_not_an_argument() {
    let (_, list) = scan("ls a", "/h", "/p");
    assert_eq!(list, vec!["/p/a"]);
}

#[test]
fn pathlike_command_is_an_argument() {
    let (cmd, list) = scan("./script run", "/h", "/p");
    assert_eq!(cmd, Command::Etc);
    assert_eq!(list, vec!["/p/./script", "/p/run"]);
}

#[test]
fn relative_tokens_join_working_directory() {
    let (_, list) = scan("cp a.txt sub/b.txt", "/h", "/p");
    assert_eq!(list, vec!["/p/a.txt", "/p/sub/b.txt"]);
}

#[test]
fn tilde_expands_to_home() {
    let (_, list) = scan("cat ~/notes.txt", "/home/me", "/p");
    assert_eq!(list, vec!["/home/me/notes.txt"]);
}

#[test]
fn absolute_tokens_stand() {
    let (_, list) = scan("cat /etc/hosts", "/h", "/p");
    assert_eq!(list, vec!["/etc/hosts"]);
}

#[test]
fn option_flags_are_dropped() {
    let (_, list) = scan("cp -v --color a", "/h", "/p");
    assert_eq!(list, vec!["/p/a"]);
}

#[test]
fn null_device_is_dropped() {
    let (_, list) = scan("cp a /dev/null", "/h", "/p");
    assert_eq!(list, vec!["/p/a"]);
}

#[test]
fn remote_spec_passes_verbatim() {
    let (_, list) = scan("scp file.txt user@host:/remote/path", "/h", "/p");
    assert_eq!(list, vec!["/p/file.txt", "user@host:/remote/path"]);
}

#[test]
fn login_tokens_pass_verbatim() {
    let (_, list) = scan("ssh myhost", "/h", "/p");
    assert_eq!(list, vec!["myhost"]);
}

#[test]
fn target_directory_option_clears_candidates() {
    let (cmd, list) = scan("cp --target-directory=/x a b", "/h", "/p");
    assert_eq!(cmd, Command::Cp);
    assert!(list.is_empty());
}

#[test]
fn short_target_directory_option_clears_candidates() {
    let (cmd, list) = scan("mv -t /x a b", "/h", "/p");
    assert_eq!(cmd, Command::Mv);
    assert!(list.is_empty());
}

#[test]
fn target_directory_under_other_verbs_is_a_plain_flag() {
    let (_, list) = scan("ls --target-directory=/x a", "/h", "/p");
    assert_eq!(list, vec!["/p/a"]);
}
