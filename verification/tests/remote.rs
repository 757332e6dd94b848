use git_remote_ipgrv::error::Error;
use git_remote_ipgrv::remote::{
    parse_command, Action, Command, Event, FetchArgs, Handler, Head, Input, PushArgs, RefList,
    Remote, Step,
};

fn push_args(src: &str, dest: &str, force: bool) -> Command {
    Command::Push(PushArgs { src: src.to_string(), dest: dest.to_string(), force })
}

fn fetch_args(hash: &str, ref_name: &str) -> Command {
    Command::Fetch(FetchArgs { hash: hash.to_string(), ref_name: ref_name.to_string() })
}

fn handler() -> Handler {
    Handler::new("Qm123".to_string())
}

fn lines(items: &[&str]) -> Vec<String> {
    items.iter().map(|s| s.to_string()).collect()
}

// Feeds the input to a session, answering each action as a repository
// without branches would; returns what was written and the commands carried out.
fn session(input: &str) -> Result<(String, Vec<Command>), Error> {
    let handler = handler();
    let mut remote = Remote::new();
    let mut rest = input;
    let mut written = String::new();
    let mut performed = Vec::new();
    let mut action = Action::ReadLine;
    loop {
        let event = match action {
            Action::ReadLine => match rest.find('\n') {
                Some(end) => {
                    let line = rest[..end + 1].to_string();
                    rest = &rest[end + 1..];
                    Event::Line(line)
                }
                None if rest.is_empty() => Event::EndOfInput,
                None => {
                    let line = rest.to_string();
                    rest = "";
                    Event::Line(line)
                }
            },
            Action::ListRefs => Event::Refs(RefList {
                branches: Vec::new(),
                head: Head::Symbolic("refs/heads/master".to_string()),
            }),
            Action::Perform(command) => {
                performed.push(command);
                Event::Completed
            }
            Action::Stop => return Ok((written, performed)),
        };
        let step = remote.process_commands(&handler, event)?;
        for line in step.output {
            written.push_str(&line);
            written.push('\n');
        }
        action = step.action;
    }
}

#[test]
fn capabilities_session() {
    // the answer to `capabilities`, then the blank line that answers the blank line
    assert_eq!(session("capabilities\n"), Ok(("push\nfetch\n\n\n".to_string(), vec![])));
    assert_eq!(session("capabilities\n\n"), Ok(("push\nfetch\n\n\n".to_string(), vec![])));
}

#[test]
fn list_session_without_branches() {
    assert_eq!(
        session("list\n\n"),
        Ok(("Qm123 refs/heads/master\n@refs/heads/master HEAD\n\n\n".to_string(), vec![]))
    );
    let handler = handler();
    let mut remote = Remote::new();
    remote.process_commands(&handler, Event::Line("list\n".to_string())).unwrap();
    let refs = RefList { branches: vec![], head: Head::Symbolic("refs/heads/master".to_string()) };
    assert_eq!(
        remote.process_commands(&handler, Event::Refs(refs)),
        Ok(Step {
            output: lines(&["Qm123 refs/heads/master", "@refs/heads/master HEAD", ""]),
            action: Action::ReadLine,
        })
    );
}

#[test]
fn push_session() {
    let (written, performed) = session("push refs/heads/main:refs/heads/main\n\n").unwrap();
    assert_eq!(written, "ok refs/heads/main\n\n");
    assert_eq!(performed, vec![push_args("refs/heads/main", "refs/heads/main", false)]);
}

#[test]
fn unknown_command_ends_session() {
    let handler = handler();
    let mut remote = Remote::new();
    assert_eq!(
        remote.process_commands(&handler, Event::Line("frobnicate\n".to_string())),
        Err(Error::InvalidCommand("frobnicate".to_string()))
    );
    // no further commands are processed
    assert_eq!(
        remote.process_commands(&handler, Event::Line("capabilities\n".to_string())),
        Err(Error::UnexpectedEvent)
    );
    assert_eq!(
        session("frobnicate\ncapabilities\n"),
        Err(Error::InvalidCommand("frobnicate".to_string()))
    );
}

#[test]
fn capabilities_step() {
    let mut remote = Remote::new();
    assert_eq!(
        remote.process_commands(&handler(), Event::Line("capabilities\n".to_string())),
        Ok(Step { output: lines(&["push", "fetch", ""]), action: Action::ReadLine })
    );
}

#[test]
fn fetch_is_not_acknowledged() {
    let hash = "fa9372aa0123456789abcdef0123456789abcdef";
    let input = format!("fetch {} refs/heads/master\n\n", hash);
    assert_eq!(
        session(&input),
        Ok(("\n".to_string(), vec![fetch_args(hash, "refs/heads/master")]))
    );
}

#[test]
fn batch_is_flushed_in_order() {
    let (written, performed) =
        session("push a:b\nfetch 00 r\npush +c:d\n\ncapabilities\n").unwrap();
    assert_eq!(written, "ok a\nok c\n\n");
    assert_eq!(
        performed,
        vec![push_args("a", "b", false), fetch_args("00", "r"), push_args("c", "d", true)]
    );
}

#[test]
fn end_of_input_flushes_batch() {
    let (written, performed) = session("push a:b\n").unwrap();
    assert_eq!(written, "ok a\n\n");
    assert_eq!(performed, vec![push_args("a", "b", false)]);
}

#[test]
fn end_of_input_counts_as_blank_line() {
    assert_eq!(session(""), Ok(("\n".to_string(), vec![])));
    assert_eq!(
        Remote::new().process_commands(&handler(), Event::EndOfInput),
        Ok(Step { output: lines(&[""]), action: Action::Stop })
    );
}

#[test]
fn blank_line_with_empty_batch_is_answered_with_one_blank_line() {
    assert_eq!(session("\n"), Ok(("\n".to_string(), vec![])));
    assert_eq!(session("\n\ncapabilities\n"), Ok(("\n".to_string(), vec![])));
    let mut remote = Remote::new();
    assert_eq!(
        remote.process_commands(&handler(), Event::Line("\n".to_string())),
        Ok(Step { output: lines(&[""]), action: Action::Stop })
    );
    // the session is over
    assert_eq!(
        remote.process_commands(&handler(), Event::Line("capabilities".to_string())),
        Err(Error::UnexpectedEvent)
    );
}

#[test]
fn blank_line_after_answered_commands_stops() {
    assert_eq!(session("capabilities\nlist\n\npush a:b\n"), Ok((
        "push\nfetch\n\nQm123 refs/heads/master\n@refs/heads/master HEAD\n\n\n".to_string(),
        vec![],
    )));
}

#[test]
fn flush_hands_out_one_command_at_a_time() {
    let handler = handler();
    let mut remote = Remote::new();
    let quiet = Ok(Step { output: vec![], action: Action::ReadLine });
    assert_eq!(remote.process_commands(&handler, Event::Line("push a:b\n".to_string())), quiet);
    assert_eq!(remote.process_commands(&handler, Event::Line("fetch 00 r\n".to_string())), quiet);
    assert_eq!(
        remote.process_commands(&handler, Event::Line("\n".to_string())),
        Ok(Step { output: vec![], action: Action::Perform(push_args("a", "b", false)) })
    );
    assert_eq!(
        remote.process_commands(&handler, Event::Completed),
        Ok(Step { output: lines(&["ok a"]), action: Action::Perform(fetch_args("00", "r")) })
    );
    assert_eq!(
        remote.process_commands(&handler, Event::Completed),
        Ok(Step { output: lines(&[""]), action: Action::Stop })
    );
    assert_eq!(remote.process_commands(&handler, Event::Completed), Err(Error::UnexpectedEvent));
}

#[test]
fn list_with_branches_and_direct_head() {
    let handler = handler();
    let mut remote = Remote::new();
    assert_eq!(
        remote.process_commands(&handler, Event::Line("list for-push\n".to_string())),
        Ok(Step { output: vec![], action: Action::ListRefs })
    );
    let refs = RefList {
        branches: lines(&["refs/heads/master", "refs/heads/dev"]),
        head: Head::Direct("fa9372aa0123456789abcdef0123456789abcdef".to_string()),
    };
    assert_eq!(
        remote.process_commands(&handler, Event::Refs(refs)),
        Ok(Step {
            output: lines(&[
                "? refs/heads/master",
                "? refs/heads/dev",
                "fa9372aa0123456789abcdef0123456789abcdef HEAD",
                "",
            ]),
            action: Action::ReadLine,
        })
    );
}

#[test]
fn list_lines_for_fresh_clone() {
    let refs = RefList { branches: vec![], head: Head::Symbolic("refs/heads/main".to_string()) };
    assert_eq!(
        Remote::new().list(&handler(), &refs),
        lines(&["Qm123 refs/heads/master", "@refs/heads/main HEAD"])
    );
}

#[test]
fn refs_are_refused_when_not_asked_for() {
    let refs = RefList { branches: vec![], head: Head::Direct("00".to_string()) };
    assert_eq!(
        Remote::new().process_commands(&handler(), Event::Refs(refs)),
        Err(Error::UnexpectedEvent)
    );
}

#[test]
fn handler_keeps_remote_hash() {
    assert_eq!(Handler::new("Qm123".to_string()).remote_hash(), "Qm123");
    assert_eq!(Handler::new(String::new()).remote_hash(), "");
}

#[test]
fn parse_command_reads_each_command() {
    assert_eq!(parse_command("capabilities"), Ok(Input::Capabilities));
    assert_eq!(parse_command("capabilities\n"), Ok(Input::Capabilities));
    assert_eq!(parse_command("list"), Ok(Input::List));
    assert_eq!(parse_command("list for-push\n"), Ok(Input::List));
    assert_eq!(parse_command(""), Ok(Input::Blank));
    assert_eq!(parse_command("\n"), Ok(Input::Blank));
    assert_eq!(
        parse_command("push refs/heads/a:refs/heads/b\n"),
        Ok(Input::Batched(push_args("refs/heads/a", "refs/heads/b", false)))
    );
    assert_eq!(
        parse_command("fetch abcd refs/heads/b\n"),
        Ok(Input::Batched(fetch_args("abcd", "refs/heads/b")))
    );
}

#[test]
fn parse_command_matches_exactly() {
    assert_eq!(parse_command("listing"), Err(Error::InvalidCommand("listing".to_string())));
    assert_eq!(
        parse_command("list for-pull\n"),
        Err(Error::InvalidCommand("list for-pull".to_string()))
    );
    assert_eq!(
        parse_command(" capabilities"),
        Err(Error::InvalidCommand(" capabilities".to_string()))
    );
    assert_eq!(parse_command("push"), Err(Error::InvalidCommand("push".to_string())));
    assert_eq!(parse_command("é\n\n"), Err(Error::InvalidCommand("é".to_string())));
}

#[test]
fn parse_push_reads_force_and_colons() {
    assert_eq!(parse_command("push +a:b"), Ok(Input::Batched(push_args("a", "b", true))));
    assert_eq!(parse_command("push :b"), Ok(Input::Batched(push_args("", "b", false))));
    assert_eq!(parse_command("push a:"), Ok(Input::Batched(push_args("a", "", false))));
    assert_eq!(parse_command("push a:b:c"), Ok(Input::Batched(push_args("a", "b", false))));
    assert_eq!(parse_command("push é:ü"), Ok(Input::Batched(push_args("é", "ü", false))));
    assert_eq!(
        parse_command("push no-colon\n"),
        Err(Error::InvalidCommand("push no-colon".to_string()))
    );
    assert_eq!(parse_command("push +"), Err(Error::InvalidCommand("push +".to_string())));
}

#[test]
fn parse_fetch_splits_on_blanks() {
    assert_eq!(parse_command("fetch  ab \t cd  ef"), Ok(Input::Batched(fetch_args("ab", "cd"))));
    assert_eq!(parse_command("fetch ab"), Err(Error::InvalidCommand("fetch ab".to_string())));
    assert_eq!(parse_command("fetch "), Err(Error::InvalidCommand("fetch ".to_string())));
    assert_eq!(parse_command("fetch ab  "), Err(Error::InvalidCommand("fetch ab  ".to_string())));
}
