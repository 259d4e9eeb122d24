use sima_pipeline::config::Container;
use sima_pipeline::fault::Fault;
use sima_pipeline::process::{
    bootstrap_image, command_stdout, run_failed, worker_binary, worker_candidates, Exit, ImageCheck,
};

fn exit(code: Option<i32>, shown: &str) -> Exit {
    Exit {
        code,
        shown: shown.to_string(),
    }
}

fn container() -> Container {
    Container {
        image: "localhost/sima:latest".to_string(),
        runtime: "docker".to_string(),
        run_args: vec![],
    }
}

#[test]
fn a_command_that_fails_carries_what_it_said_rather_than_printing_it() {
    let failed = command_stdout(
        "/bin/sh",
        &exit(Some(255), "exit status: 255"),
        "connection refused\n",
        Ok(String::new()),
    )
    .expect_err("a command that exits non-zero fails");
    let text = failed.message();
    assert!(text.contains("connection refused"), "{text}");
    assert!(text.contains("255"), "names the status: {text}");
    assert_eq!(
        text,
        "\"/bin/sh\" exited with exit status: 255: connection refused"
    );
}

#[test]
fn a_command_that_fails_silently_carries_its_status_alone() {
    let failed = command_stdout(
        "sh",
        &exit(None, "signal: 9"),
        " \n\t",
        Ok("half".to_string()),
    );
    assert_eq!(
        failed,
        Err(Fault::Transport("\"sh\" exited with signal: 9".to_string()))
    );
}

#[test]
fn a_command_that_succeeds_answers_with_its_stdout_alone() {
    let answered = command_stdout(
        "/bin/sh",
        &exit(Some(0), "exit status: 0"),
        "noise\n",
        Ok("answer\n".to_string()),
    );
    assert_eq!(answered, Ok("answer\n".to_string()));
}

#[test]
fn output_that_is_not_text_is_refused_and_so_is_a_command_that_never_ran() {
    assert_eq!(
        command_stdout(
            "sh",
            &exit(Some(0), "exit status: 0"),
            "",
            Err("bad byte".to_string())
        ),
        Err(Fault::Transport(
            "\"sh\" output is not UTF-8: bad byte".to_string()
        ))
    );
    assert_eq!(
        run_failed("sh", "no such file"),
        Fault::Transport("running \"sh\" failed: no such file".to_string())
    );
}

#[test]
fn a_present_image_is_present_wherever_it_is() {
    for host in [None, Some("gpubox")] {
        assert_eq!(
            bootstrap_image(host, &container(), &exit(Some(0), "exit status: 0")),
            Ok(ImageCheck::Present)
        );
    }
}

#[test]
fn a_missing_image_names_the_command_that_puts_it_there() {
    assert_eq!(
        bootstrap_image(None, &container(), &exit(Some(255), "exit status: 255")),
        Err(Fault::Validation(
            "worker image \"localhost/sima:latest\" is not present locally; put it there with: \
             podman build -t localhost/sima:latest -f containers/sima/Containerfile ."
                .to_string()
        )),
        "a local runtime speaks about the image, whatever its code"
    );
    assert_eq!(
        bootstrap_image(Some("gpubox"), &container(), &exit(Some(1), "exit status: 1")),
        Err(Fault::Validation(
            "worker image \"localhost/sima:latest\" is not present on \"gpubox\"; put it there \
             with: podman save localhost/sima:latest | ssh gpubox docker load"
                .to_string()
        ))
    );
}

#[test]
fn a_connection_that_could_not_be_made_is_an_answer() {
    assert_eq!(
        bootstrap_image(
            Some("gpubox"),
            &container(),
            &exit(Some(255), "exit status: 255")
        ),
        Ok(ImageCheck::Unreachable(Fault::Transport(
            "cannot reach \"gpubox\": ssh exited with exit status: 255".to_string()
        )))
    );
}

#[test]
fn the_worker_binary_is_found_in_order() {
    let candidates = worker_candidates(Some("/t/debug/deps"), Some("/t/debug"));
    assert_eq!(
        candidates,
        ["/t/debug/deps/sima-worker", "/t/debug/sima-worker"]
    );
    assert_eq!(
        worker_binary(
            Some("/opt/w".to_string()),
            Ok(candidates.clone()),
            &vec![true, true]
        ),
        Ok("/opt/w".to_string())
    );
    assert_eq!(
        worker_binary(None, Ok(candidates.clone()), &vec![true, true]),
        Ok("/t/debug/deps/sima-worker".to_string())
    );
    assert_eq!(
        worker_binary(None, Ok(candidates.clone()), &vec![false, true]),
        Ok("/t/debug/sima-worker".to_string())
    );
    assert_eq!(
        worker_binary(None, Ok(candidates), &vec![false, false]),
        Err(Fault::Validation(
            "sima-worker binary not found; set SIMA_WORKER or place it at one of: \
             /t/debug/deps/sima-worker, /t/debug/sima-worker"
                .to_string()
        ))
    );
    assert_eq!(
        worker_binary(None, Err("gone".to_string()), &vec![]),
        Err(Fault::Validation(
            "cannot locate sima-worker: the current executable's path is unknown: gone".to_string()
        ))
    );
    assert_eq!(worker_candidates(None, None), Vec::<String>::new());
}
