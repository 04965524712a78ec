use jobserver_client::{
    names_jobserver, parse_jobserver_auth, JobServerStyle, ParseJobserverAuthError,
};

#[test]
fn test_parse_jobserver_auth_fifo() {
    assert_eq!(
        parse_jobserver_auth(" -j2 --jobserver-auth=fifo:/tmp/GMfifo6851"),
        Ok(JobServerStyle::Fifo("/tmp/GMfifo6851")),
    );

    assert_eq!(
        parse_jobserver_auth(" -j2 --jobserver-auth=fifo:/tmp/GMfifo6851 -blah"),
        Ok(JobServerStyle::Fifo("/tmp/GMfifo6851")),
    );

    assert_eq!(
        parse_jobserver_auth(
            " -j2 --jobserver-auth=fifo:/tmp/GMfifo6852 --jobserver-auth=fifo:/tmp/GMfifo6851"
        ),
        Ok(JobServerStyle::Fifo("/tmp/GMfifo6851")),
    );
}

#[test]
fn test_parse_jobserver_auth_pipe() {
    assert_eq!(
        parse_jobserver_auth("  -j3 --jobserver-auth=3,4 --jobserver-auth=-2,-2"),
        Ok(JobServerStyle::Pipe(-2, -2)),
    );

    assert_eq!(
        parse_jobserver_auth("  -j3 --jobserver-auth=3,4"),
        Ok(JobServerStyle::Pipe(3, 4)),
    );
}

fn invalid_auth(text: &str) -> Result<JobServerStyle<'_>, ParseJobserverAuthError> {
    Err(ParseJobserverAuthError::InvalidJobServerAuth(text.to_string()))
}

#[test]
fn fifo_path_runs_to_the_end() {
    assert_eq!(
        parse_jobserver_auth("--jobserver-auth=fifo:/run/user/1000/js"),
        Ok(JobServerStyle::Fifo("/run/user/1000/js")),
    );
    assert_eq!(
        parse_jobserver_auth("-k --jobserver-auth=fifo:relative/path"),
        Ok(JobServerStyle::Fifo("relative/path")),
    );
}

#[test]
fn fifo_path_ends_at_the_first_space() {
    assert_eq!(
        parse_jobserver_auth("--jobserver-auth=fifo:/tmp/a b c"),
        Ok(JobServerStyle::Fifo("/tmp/a")),
    );
    assert_eq!(
        parse_jobserver_auth("--jobserver-auth=fifo:/tmp/a  -j4 --other=1,2"),
        Ok(JobServerStyle::Fifo("/tmp/a")),
    );
}

#[test]
fn fifo_path_may_be_empty() {
    assert_eq!(
        parse_jobserver_auth("-j2 --jobserver-auth=fifo:"),
        Ok(JobServerStyle::Fifo("")),
    );
    assert_eq!(
        parse_jobserver_auth("--jobserver-auth=fifo: -j2"),
        Ok(JobServerStyle::Fifo("")),
    );
}

#[test]
fn last_fifo_flag_wins() {
    assert_eq!(
        parse_jobserver_auth("--jobserver-auth=fifo:/a --jobserver-auth=fifo:/b --jobserver-auth=fifo:/c -j1"),
        Ok(JobServerStyle::Fifo("/c")),
    );
    let tail = "--jobserver-auth=fifo:/tmp/x -l";
    let longer = format!("-j8 --jobserver-auth=fifo:/tmp/y {}", tail);
    assert_eq!(parse_jobserver_auth(tail), Ok(JobServerStyle::Fifo("/tmp/x")));
    assert_eq!(parse_jobserver_auth(&longer), Ok(JobServerStyle::Fifo("/tmp/x")));
}

#[test]
fn fifo_flag_right_behind_fifo_flag() {
    assert_eq!(
        parse_jobserver_auth("--jobserver-auth=fifo:--jobserver-auth=fifo:/tmp/z"),
        Ok(JobServerStyle::Fifo("/tmp/z")),
    );
}

#[test]
fn fifo_flag_wins_over_a_later_descriptor_flag() {
    assert_eq!(
        parse_jobserver_auth("--jobserver-auth=fifo:/tmp/f --jobserver-auth=3,4"),
        Ok(JobServerStyle::Fifo("/tmp/f")),
    );
    assert_eq!(
        parse_jobserver_auth("--jobserver-auth=3,4 --jobserver-auth=fifo:/tmp/f"),
        Ok(JobServerStyle::Fifo("/tmp/f")),
    );
}

#[test]
fn path_keeps_characters_outside_ascii() {
    assert_eq!(
        parse_jobserver_auth("-j2 –é– --jobserver-auth=fifo:/tmp/jöb/sérver tail"),
        Ok(JobServerStyle::Fifo("/tmp/jöb/sérver")),
    );
    assert_eq!(
        parse_jobserver_auth("ü --jobserver-auth=7,8 ü"),
        Ok(JobServerStyle::Pipe(7, 8)),
    );
}

#[test]
fn descriptor_pair_is_read_exactly() {
    assert_eq!(parse_jobserver_auth("--jobserver-auth=0,0"), Ok(JobServerStyle::Pipe(0, 0)));
    assert_eq!(
        parse_jobserver_auth("--jobserver-auth=10,255 -j"),
        Ok(JobServerStyle::Pipe(10, 255)),
    );
    assert_eq!(
        parse_jobserver_auth("--jobserver-auth=-1,7"),
        Ok(JobServerStyle::Pipe(-1, 7)),
    );
    assert_eq!(
        parse_jobserver_auth("--jobserver-auth=7,-1"),
        Ok(JobServerStyle::Pipe(7, -1)),
    );
    assert_eq!(
        parse_jobserver_auth("--jobserver-auth=007,+8"),
        Ok(JobServerStyle::Pipe(7, 8)),
    );
}

#[test]
fn descriptor_pair_at_the_limits_of_i32() {
    assert_eq!(
        parse_jobserver_auth("--jobserver-auth=2147483647,-2147483648"),
        Ok(JobServerStyle::Pipe(i32::MAX, i32::MIN)),
    );
    assert_eq!(
        parse_jobserver_auth("--jobserver-auth=2147483648,1"),
        Err(ParseJobserverAuthError::InvalidPipeDescriptors),
    );
    assert_eq!(
        parse_jobserver_auth("--jobserver-auth=1,-2147483649"),
        Err(ParseJobserverAuthError::InvalidPipeDescriptors),
    );
    assert_eq!(
        parse_jobserver_auth("--jobserver-auth=99999999999999999999999999,1"),
        Err(ParseJobserverAuthError::InvalidPipeDescriptors),
    );
    assert_eq!(
        parse_jobserver_auth("--jobserver-auth=000000000000000000000000012,1"),
        Ok(JobServerStyle::Pipe(12, 1)),
    );
}

#[test]
fn last_descriptor_flag_wins() {
    assert_eq!(
        parse_jobserver_auth("--jobserver-auth=1,2 --jobserver-auth=5,6 --jobserver-auth=8,9"),
        Ok(JobServerStyle::Pipe(8, 9)),
    );
    assert_eq!(
        parse_jobserver_auth("--jobserver-auth=--jobserver-auth=3,4"),
        Ok(JobServerStyle::Pipe(3, 4)),
    );
}

#[test]
fn wrong_number_of_fields_is_refused() {
    assert_eq!(
        parse_jobserver_auth("--jobserver-auth=3,4,5"),
        Err(ParseJobserverAuthError::InvalidPipeDescriptors),
    );
    assert_eq!(
        parse_jobserver_auth("-j2 --jobserver-auth=3 -l"),
        Err(ParseJobserverAuthError::InvalidPipeDescriptors),
    );
    assert_eq!(
        parse_jobserver_auth("--jobserver-auth=3,4, "),
        Err(ParseJobserverAuthError::InvalidPipeDescriptors),
    );
    assert_eq!(
        parse_jobserver_auth("--jobserver-auth=-"),
        Err(ParseJobserverAuthError::InvalidPipeDescriptors),
    );
}

#[test]
fn fields_that_are_no_integers_are_refused() {
    assert_eq!(
        parse_jobserver_auth("--jobserver-auth=3,x"),
        Err(ParseJobserverAuthError::InvalidPipeDescriptors),
    );
    assert_eq!(
        parse_jobserver_auth("--jobserver-auth=3,"),
        Err(ParseJobserverAuthError::InvalidPipeDescriptors),
    );
    assert_eq!(
        parse_jobserver_auth("--jobserver-auth=-,4"),
        Err(ParseJobserverAuthError::InvalidPipeDescriptors),
    );
    assert_eq!(
        parse_jobserver_auth("--jobserver-auth=3-,4"),
        Err(ParseJobserverAuthError::InvalidPipeDescriptors),
    );
    assert_eq!(
        parse_jobserver_auth("--jobserver-auth=--3,4"),
        Err(ParseJobserverAuthError::InvalidPipeDescriptors),
    );
    assert_eq!(
        parse_jobserver_auth("--jobserver-auth=3_0,4"),
        Err(ParseJobserverAuthError::InvalidPipeDescriptors),
    );
}

#[test]
fn string_without_the_flag_is_invalid() {
    for text in ["", " ", "-j2", "-j2 --jobserver-fds=3,4", "--jobserver-auth", "jobserver-auth=3,4"] {
        assert_eq!(parse_jobserver_auth(text), invalid_auth(text));
    }
}

#[test]
fn flag_without_a_value_is_invalid() {
    for text in ["--jobserver-auth=", "-j2 --jobserver-auth=", "--jobserver-auth= 3,4", "--jobserver-auth= -j2"] {
        assert_eq!(parse_jobserver_auth(text), invalid_auth(text));
    }
}

#[test]
fn flag_with_another_form_is_invalid() {
    for text in [
        "--jobserver-auth=sem:name",
        "--jobserver-auth=fifo",
        "--jobserver-auth=FIFO:/tmp/x",
        "--jobserver-auth=+3,4",
        "--jobserver-auth=,3",
        "--jobserver-auth=x3,4 -j2",
        "--jobserver-auth=3,4 --jobserver-auth=none",
    ] {
        assert_eq!(parse_jobserver_auth(text), invalid_auth(text));
    }
}

#[test]
fn error_holds_the_whole_string() {
    match parse_jobserver_auth("  -j3 --no-print-directory ") {
        Err(ParseJobserverAuthError::InvalidJobServerAuth(text)) => {
            assert_eq!(text, "  -j3 --no-print-directory ");
        }
        other => panic!("unexpected result: {:?}", other),
    }
}

#[test]
fn names_jobserver_looks_for_the_flag_only() {
    assert!(names_jobserver("--jobserver-auth="));
    assert!(names_jobserver(" -j2 --jobserver-auth=fifo:/tmp/GMfifo6851"));
    assert!(names_jobserver("-j3 --jobserver-auth=3,4 -l"));
    assert!(names_jobserver("x--jobserver-auth=nonsense"));
    assert!(!names_jobserver(""));
    assert!(!names_jobserver("-j3"));
    assert!(!names_jobserver("--jobserver-auth"));
    assert!(!names_jobserver("--jobserver-fds=3,4"));
}
