use tape_git_remote::git::{
    git_dir_arguments, has_object_arguments, head_arguments, is_ancestor_arguments,
    pack_object_count, rev_parse_arguments, Feed, GitOutput, Repository,
};

const PACK_SIGNATURE: [u8; 4] = *b"PACK";

fn header(count: u32) -> Vec<u8> {
    let mut pack = Vec::new();
    pack.extend_from_slice(&PACK_SIGNATURE);
    pack.extend_from_slice(&2u32.to_be_bytes());
    pack.extend_from_slice(&count.to_be_bytes());
    pack
}

fn output(success: bool, stdout: &[u8], stderr: &[u8]) -> GitOutput {
    GitOutput { success, stdout: stdout.to_vec(), stderr: stderr.to_vec() }
}

fn words(arguments: &[&str]) -> Vec<String> {
    arguments.iter().map(|word| word.to_string()).collect()
}

// a well-formed header reports its object count
#[test]
fn counts_objects() {
    let pack = header(278);

    assert_eq!(pack_object_count(&pack), 278);
}

// an empty pack is still a valid header, and must report zero
#[test]
fn empty_pack() {
    let pack = header(0);

    assert_eq!(pack_object_count(&pack), 0);
}

// truncated or foreign bytes count as nothing rather than panicking
#[test]
fn not_a_pack() {
    assert_eq!(pack_object_count(b"PAC"), 0);
    assert_eq!(pack_object_count(&[]), 0);
    assert_eq!(pack_object_count(b"NOPEnope\0\0\0\x05"), 0);
}

// every byte of the count takes part
#[test]
fn counts_many_objects() {
    assert_eq!(pack_object_count(&header(u32::MAX)), 4_294_967_295);
    assert_eq!(pack_object_count(&header(0x0102_0304)), 16_909_060);
    assert_eq!(pack_object_count(b"PACK\0\0\0\x02\0\0\0"), 0);
}

// the arguments of each question
#[test]
fn question_arguments() {
    assert_eq!(
        rev_parse_arguments("main"),
        words(&["rev-parse", "--verify", "--quiet", "main"])
    );
    assert_eq!(has_object_arguments("abc"), words(&["cat-file", "-e", "abc^{object}"]));
    assert_eq!(
        is_ancestor_arguments("abc", "def"),
        words(&["merge-base", "--is-ancestor", "abc", "def"])
    );
    assert_eq!(head_arguments(), words(&["symbolic-ref", "HEAD"]));
    assert_eq!(git_dir_arguments(), words(&["rev-parse", "--absolute-git-dir"]));
}

// nothing is known of a repository git has not been run in
#[test]
fn unknown_repository() {
    let repository = Repository::at("/somewhere");

    assert_eq!(repository.root(), "/somewhere");
    assert!(!repository.has_run(&head_arguments()));
    assert_eq!(repository.rev_parse("main"), None);
    assert!(!repository.has_object("abc"));
    assert!(!repository.is_ancestor("abc", "def"));
    assert_eq!(
        repository.git(&["symbolic-ref", "HEAD"]),
        Err("git symbolic-ref HEAD has not been run".to_string())
    );
}

// answers come from the runs on record, the latest one counting
#[test]
fn recorded_answers() {
    let mut repository = Repository::at(".");
    repository.record(rev_parse_arguments("main"), Ok(output(true, b"abc\n", b"")));
    repository.record(rev_parse_arguments("gone"), Ok(output(false, b"", b"")));
    repository.record(rev_parse_arguments("blank"), Ok(output(true, b" \n", b"")));
    repository.record(rev_parse_arguments("stuck"), Err("no such program".to_string()));
    repository.record(has_object_arguments("abc"), Ok(output(true, b"", b"")));
    repository.record(has_object_arguments("def"), Ok(output(false, b"", b"")));
    repository.record(is_ancestor_arguments("abc", "def"), Ok(output(true, b"", b"")));

    assert_eq!(repository.rev_parse("main").as_deref(), Some("abc"));
    assert_eq!(repository.rev_parse("gone"), None);
    assert_eq!(repository.rev_parse("blank"), None);
    assert_eq!(repository.rev_parse("stuck"), None);
    assert!(repository.has_object("abc"));
    assert!(!repository.has_object("def"));
    assert!(repository.is_ancestor("abc", "def"));
    assert!(!repository.is_ancestor("def", "abc"));

    repository.record(rev_parse_arguments("main"), Ok(output(true, b"fed\n", b"")));
    assert_eq!(repository.rev_parse("main").as_deref(), Some("fed"));
}

// stdout is trimmed and need not be UTF-8; failures name the command
#[test]
fn required_success() {
    let mut repository = Repository::at(".");
    repository.record(words(&["a", "b"]), Ok(output(true, b"\t refs/heads/x\r\n", b"ignored")));
    repository.record(words(&["c"]), Ok(output(false, b"ignored", b" fatal: no\n")));
    repository.record(words(&["d"]), Err("no such program".to_string()));
    repository.record(words(&["e"]), Ok(output(true, b"caf\xe9\n", b"")));

    assert_eq!(repository.git(&["a", "b"]), Ok("refs/heads/x".to_string()));
    assert_eq!(repository.git(&["c"]), Err("git c failed: fatal: no".to_string()));
    assert_eq!(repository.git(&["d"]), Err("spawn git d: no such program".to_string()));
    assert_eq!(repository.git(&["e"]), Ok("caf\u{fffd}".to_string()));
}

// the git directory is what git printed
#[test]
fn finds_git_dir() {
    let mut repository = Repository::at(".");
    repository.record(git_dir_arguments(), Ok(output(true, "/t/\u{e9}/.git\n".as_bytes(), b"")));

    assert_eq!(repository.git_dir(), Ok("/t/\u{e9}/.git".to_string()));

    repository.record(git_dir_arguments(), Ok(output(false, b"", b"not a repository\n")));
    assert_eq!(
        repository.git_dir(),
        Err("git rev-parse --absolute-git-dir failed: not a repository".to_string())
    );
}

// a pack is asked for by what it has to reach and what it may leave out
#[test]
fn pack_input() {
    let process =
        Repository::at(".").pack_objects(&words(&["abc", "def"]), &words(&["012", "345"]));

    assert_eq!(
        process.arguments,
        words(&["pack-objects", "--stdout", "--revs", "--delta-base-offset", "--quiet"])
    );
    assert_eq!(process.input, b"abc\ndef\n^012\n^345\n".to_vec());
    assert_eq!(process.what, "git pack-objects");
}

// a pack is installed from its own bytes
#[test]
fn install_input() {
    let process = Repository::at(".").index_pack(&header(3));

    assert_eq!(process.arguments, words(&["index-pack", "--stdin", "--fix-thin"]));
    assert_eq!(process.input, header(3));
}

// a git that succeeded has to have been fed everything
#[test]
fn fed_gits() {
    let process = Repository::at(".").pack_objects(&[], &[]);

    assert_eq!(
        process.finish(output(true, b"out", b""), Feed::Complete),
        Ok(b"out".to_vec())
    );
    assert_eq!(
        process.finish(output(true, b"out", b""), Feed::Broken("broken pipe".to_string())),
        Err("write git pack-objects stdin: broken pipe".to_string())
    );
    assert_eq!(
        process.finish(output(true, b"out", b""), Feed::Panicked),
        Err("git pack-objects stdin writer panicked".to_string())
    );
    assert_eq!(
        process.finish(output(false, b"out", b"bad object\n"), Feed::Panicked),
        Err("git pack-objects failed: bad object".to_string())
    );
    assert_eq!(
        process.finish(output(false, b"", b"bad\n"), Feed::Broken("broken pipe".to_string())),
        Err("git pack-objects failed: bad".to_string())
    );
}
