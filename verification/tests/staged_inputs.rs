use archigoat::runtime::{
    input_paths, input_plan, legacy_agrees, migration_agrees, validate_steer_inputs, InputSource, InputStep,
    StagedInput,
};

fn staged(id: &str, path: &str, bytes: u64, sha: &str) -> StagedInput {
    StagedInput {
        id: id.to_string(),
        name: "a.png".to_string(),
        media: "image/png".to_string(),
        bytes,
        sha256: sha.to_string(),
        path: path.to_string(),
    }
}

fn good(bytes: u64, sha: &str) -> Result<(bool, u64, Result<String, String>), String> {
    Ok((true, bytes, Ok(sha.to_string())))
}

#[test]
fn staged_follow_up_inputs_are_accepted_when_owned_and_unchanged() {
    let inputs = vec![staged("a", "/p/Inputs/w/n1", 3, "s1"), staged("b", "/p/Inputs/w/n2", 4, "s2")];
    let found = vec![good(3, "s1"), good(4, "s2")];
    assert!(validate_steer_inputs("/p/Inputs/w", Ok(true), &inputs, &found).is_ok());
    assert!(validate_steer_inputs("/p/Inputs/w/", Ok(true), &inputs, &found).is_ok());
    assert!(validate_steer_inputs("/x", Err("gone".to_string()), &Vec::new(), &Vec::new()).is_ok());
}

#[test]
fn the_input_root_must_be_a_real_directory() {
    let inputs = vec![staged("a", "/r/n1", 3, "s1")];
    let found = vec![good(3, "s1")];
    assert_eq!(validate_steer_inputs("/r", Ok(false), &inputs, &found).unwrap_err(), "Steer attachment root is invalid");
    assert_eq!(validate_steer_inputs("/r", Err("no root".to_string()), &inputs, &found).unwrap_err(), "no root");
}

#[test]
fn a_staged_input_must_name_itself_once_beneath_its_root() {
    let invalid = "Steer attachment identity is invalid";
    let check = |inputs: Vec<StagedInput>| {
        let found = inputs.iter().map(|i| good(i.bytes, &i.sha256)).collect::<Vec<_>>();
        validate_steer_inputs("/r", Ok(true), &inputs, &found)
    };
    assert_eq!(check(vec![staged(" ", "/r/n1", 1, "s")]).unwrap_err(), invalid);
    assert_eq!(check(vec![staged("a\u{7}", "/r/n1", 1, "s")]).unwrap_err(), invalid);
    assert_eq!(check(vec![staged("a", "/r/n1", 1, "s"), staged("a", "/r/n2", 1, "s")]).unwrap_err(), invalid);
    assert_eq!(check(vec![staged("a", "/r/n1", 1, "s"), staged("b", "/r/n1", 1, "s")]).unwrap_err(), invalid);
    assert_eq!(check(vec![staged("a", "/other/n1", 1, "s")]).unwrap_err(), invalid);
    assert_eq!(check(vec![staged("a", "/r/sub/n1", 1, "s")]).unwrap_err(), invalid);
}

#[test]
fn changed_staged_bytes_are_refused() {
    let changed = "Steer attachment bytes changed after staging";
    let inputs = vec![staged("a", "/r/n1", 3, "s1")];
    assert_eq!(validate_steer_inputs("/r", Ok(true), &inputs, &vec![good(4, "s1")]).unwrap_err(), changed);
    assert_eq!(validate_steer_inputs("/r", Ok(true), &inputs, &vec![good(3, "s2")]).unwrap_err(), changed);
    assert_eq!(
        validate_steer_inputs("/r", Ok(true), &inputs, &vec![Ok((false, 3, Ok(String::new())))]).unwrap_err(),
        changed
    );
    assert_eq!(
        validate_steer_inputs("/r", Ok(true), &inputs, &vec![Err("Could not inspect steer attachment: gone".to_string())])
            .unwrap_err(),
        "Could not inspect steer attachment: gone"
    );
    assert_eq!(
        validate_steer_inputs("/r", Ok(true), &inputs, &vec![Ok((true, 3, Err("unreadable".to_string())))]).unwrap_err(),
        "unreadable"
    );
}

#[test]
fn a_saved_input_path_is_kept_refused_or_migrated() {
    let (current, prior) = input_paths("/s");
    assert_eq!(current, "/s/.app/input.json");
    assert_eq!(prior, "/s/input.json");
    assert_eq!(input_plan("/s", "/s/.app/input.json", "", false, false).unwrap(), InputStep::Accept);
    assert_eq!(input_plan("/s", "/elsewhere", "", true, true).unwrap_err(), "Stored Work input path changed");
    assert_eq!(input_plan("/s", "/s/input.json", "x", true, true).unwrap(), InputStep::Migrate(InputSource::Prior));
    assert_eq!(input_plan("/s", "", "x", false, true).unwrap(), InputStep::Migrate(InputSource::Legacy));
    assert_eq!(input_plan("/s", "", "", false, true).unwrap(), InputStep::Migrate(InputSource::Current));
    assert_eq!(input_plan("/s", "", "", false, false).unwrap_err(), "Stored Work input is invalid");
}

#[test]
fn recovered_input_must_agree_with_what_the_record_carried() {
    assert!(legacy_agrees("{}", "").is_ok());
    assert!(legacy_agrees("{}", "{}").is_ok());
    assert_eq!(legacy_agrees("{}", "{\"a\":1}").unwrap_err(), "Stored Work input changed during legacy recovery");
    assert!(migration_agrees("{}", "{}").is_ok());
    assert_eq!(migration_agrees("{}", "[]").unwrap_err(), "Stored Work input changed during migration");
}
