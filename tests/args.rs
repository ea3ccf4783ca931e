use concurr::args::{ArgUnit, ArgsSource, ArgumentError, Arguments};
use concurr::redirection::{source, RedirectionSource};

fn args(v: &[&str]) -> Vec<String> {
    v.iter().map(|s| s.to_string()).collect()
}

#[test]
fn groups_of_strings_and_files() {
    let a = Arguments::new(args(&["echo {}", ":", "a", "b", "::", "f", ":"]), None).unwrap();
    assert_eq!(a.get_command(), "echo {}");
    assert_eq!(
        a.args,
        ArgsSource::Cli(vec![
            ArgUnit::Strings(args(&["a", "b"])),
            ArgUnit::Files(args(&["f"])),
            ArgUnit::Strings(vec![]),
        ])
    );
}

#[test]
fn argument_errors() {
    assert_eq!(Arguments::new(vec![], None), Err(ArgumentError::NoCommand));
    assert_eq!(Arguments::new(args(&["ls"]), None), Err(ArgumentError::NoInputs));
    assert_eq!(
        Arguments::new(args(&["ls", "x"]), None),
        Err(ArgumentError::Invalid("x".into()))
    );
}

#[test]
fn redirection_replaces_the_groups() {
    let a = Arguments::new(args(&["ls", "x"]), Some(RedirectionSource::Pipe)).unwrap();
    assert_eq!(a.args, ArgsSource::RedirPipe);
    let f = Some(RedirectionSource::File("/tmp/in".into()));
    let a = Arguments::new(args(&["ls"]), f).unwrap();
    assert_eq!(a.args, ArgsSource::RedirFile("/tmp/in".into()));
}

#[test]
fn redirection_source_of_a_link() {
    assert_eq!(source(None), None);
    assert_eq!(source(Some("/dev/pts/3")), None);
    assert_eq!(source(Some("pipe:[4242]")), Some(RedirectionSource::Pipe));
    assert_eq!(source(Some("/home/u/in.txt")), Some(RedirectionSource::File("/home/u/in.txt".into())));
}
