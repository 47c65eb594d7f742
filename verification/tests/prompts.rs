use markharness::interactive::{
    prompt_axis, prompt_id_or_label, prompt_line, prompt_optional_steps, prompt_phases,
    prompt_procedures, prompt_steps, LineInput, PromptError,
};
use markharness::knowledge::{is_romanizable, romanize_label, StepItem};

#[test]
fn prompt_steps_errors_instead_of_looping_forever_when_stdin_hits_eof_before_any_step() {
    let mut reader = LineInput::from_text("");
    let mut writer = String::new();

    let result = prompt_steps(&mut reader, &mut writer, "Behavior steps:");

    let err = result.expect_err("EOF before any step must return an error, not loop forever");
    assert_eq!(err, PromptError::UnexpectedEof);
}

#[test]
fn prompt_steps_returns_collected_steps_when_stdin_hits_eof_after_at_least_one_step() {
    let mut reader = LineInput::from_text("Press the jump button.\n");
    let mut writer = String::new();

    let steps = prompt_steps(&mut reader, &mut writer, "Behavior steps:").unwrap();

    assert_eq!(steps, vec!["Press the jump button.".to_string()]);
}

#[test]
fn prompt_optional_steps_returns_empty_when_the_first_line_is_blank() {
    let mut reader = LineInput::from_text("\n");
    let mut writer = String::new();

    let steps = prompt_optional_steps(&mut reader, &mut writer, "Next phase steps:").unwrap();

    assert_eq!(steps, Vec::<String>::new());
}

#[test]
fn prompt_optional_steps_collects_lines_until_a_blank_line() {
    let mut reader = LineInput::from_text("Reload the page.\n\n");
    let mut writer = String::new();

    let steps = prompt_optional_steps(&mut reader, &mut writer, "Next phase steps:").unwrap();

    assert_eq!(steps, vec!["Reload the page.".to_string()]);
}

#[test]
fn prompt_procedures_returns_empty_map_when_the_first_name_is_blank() {
    let mut reader = LineInput::from_text("\n");
    let mut writer = String::new();

    let procedures = prompt_procedures(&mut reader, &mut writer).unwrap();

    assert!(procedures.is_empty());
}

#[test]
fn prompt_procedures_collects_named_procedures_until_a_blank_name() {
    let mut reader = LineInput::from_text("login\nEnter credentials.\nPress the login button.\n\n\n");
    let mut writer = String::new();

    let procedures = prompt_procedures(&mut reader, &mut writer).unwrap();

    assert_eq!(procedures.len(), 1);
    assert_eq!(
        procedures.get("login").unwrap().steps,
        vec![
            "Enter credentials.".to_string(),
            "Press the login button.".to_string()
        ]
    );
}

#[test]
fn prompt_id_or_label_suggests_romanized_slug_and_accepts_on_empty_input() {
    let input = "プレイヤーがジャンプする\n\n";
    let mut reader = LineInput::from_text(input);
    let mut writer = String::new();

    let (id, label) =
        prompt_id_or_label(&mut reader, &mut writer, "Feature id: ", &Vec::new()).unwrap();

    assert_eq!(id, "pureiyaagajanpusuru");
    assert_eq!(label, "プレイヤーがジャンプする");
    assert!(writer.contains("pureiyaagajanpusuru"));
}

#[test]
fn prompt_id_or_label_accepts_edited_candidate() {
    let input = "プレイヤーがジャンプする\nplayer-jump\n";
    let mut reader = LineInput::from_text(input);
    let mut writer = String::new();

    let (id, label) =
        prompt_id_or_label(&mut reader, &mut writer, "Feature id: ", &Vec::new()).unwrap();

    assert_eq!(id, "player-jump");
    assert_eq!(label, "プレイヤーがジャンプする");
}

#[test]
fn prompt_id_or_label_warns_and_reprompts_on_slug_collision() {
    let candidates = vec!["pureiyaagajanpusuru".to_string()];
    let input = "プレイヤーがジャンプする\n\nプレイヤーがジャンプする\nplayer-jump\n";
    let mut reader = LineInput::from_text(input);
    let mut writer = String::new();

    let (id, label) =
        prompt_id_or_label(&mut reader, &mut writer, "Feature id: ", &candidates).unwrap();

    assert_eq!(id, "player-jump");
    assert_eq!(label, "プレイヤーがジャンプする");
    assert!(writer.contains("既存の候補と衝突しています"));
}

#[test]
fn prompt_id_or_label_returns_same_value_as_label_for_direct_ascii_input() {
    let input = "player-jump\n";
    let mut reader = LineInput::from_text(input);
    let mut writer = String::new();

    let (id, label) =
        prompt_id_or_label(&mut reader, &mut writer, "Feature id: ", &Vec::new()).unwrap();

    assert_eq!(id, "player-jump");
    assert_eq!(label, "player-jump");
}

#[test]
fn prompt_id_or_label_picks_a_listed_candidate_by_number() {
    let candidates = vec!["alpha".to_string(), "beta".to_string()];
    let mut reader = LineInput::from_text("+2\n");
    let mut writer = String::new();

    let (id, label) =
        prompt_id_or_label(&mut reader, &mut writer, "Id: ", &candidates).unwrap();

    assert_eq!((id.as_str(), label.as_str()), ("beta", "beta"));
    assert_eq!(writer, "  1) alpha\n  2) beta\nId: ");
}

#[test]
fn prompt_id_or_label_reprompts_on_an_invalid_ascii_slug() {
    let mut reader = LineInput::from_text("Bad Id\n3\nok\n");
    let mut writer = String::new();

    let (id, _) = prompt_id_or_label(&mut reader, &mut writer, "Id: ", &Vec::new()).unwrap();

    assert_eq!(id, "3");
    assert!(writer.contains("id は小文字英数字とハイフンのみ使用できます。"));
}

#[test]
fn prompt_line_reprompts_on_blank_input_and_trims() {
    let mut reader = LineInput::from_text("  \n  value \n");
    let mut writer = String::new();

    let value = prompt_line(&mut reader, &mut writer, "> ").unwrap();

    assert_eq!(value, "value");
    assert_eq!(writer, "> 入力が空です。もう一度入力してください。\n> ");
}

#[test]
fn prompt_line_ends_at_the_end_of_the_input() {
    let mut reader = LineInput::from_text("\n");
    let mut writer = String::new();

    assert_eq!(
        prompt_line(&mut reader, &mut writer, "> "),
        Err(PromptError::UnexpectedEof)
    );
}

#[test]
fn prompt_axis_splits_on_commas_and_drops_blanks() {
    let mut reader = LineInput::from_text(" ui, , validation ,\n");
    let mut writer = String::new();

    let axis = prompt_axis(&mut reader, &mut writer, "Axis: ").unwrap();

    assert_eq!(axis, vec!["ui".to_string(), "validation".to_string()]);
}

#[test]
fn prompt_steps_numbers_each_step_prompt() {
    let mut reader = LineInput::from_text("\na\nb\n\n");
    let mut writer = String::new();

    let steps = prompt_steps(&mut reader, &mut writer, "Steps:").unwrap();

    assert_eq!(steps, vec!["a".to_string(), "b".to_string()]);
    assert_eq!(
        writer,
        "Steps:\n  step 1: 少なくとも1つのstepを入力してください。\n  step 1:   step 2:   step 3: "
    );
}

#[test]
fn prompt_phases_collects_phases_until_a_blank_next_phase() {
    let mut reader = LineInput::from_text("Do it.\n\nIt works.\n\nAgain.\n\nStill works.\n\n\n");
    let mut writer = String::new();

    let phases = prompt_phases(&mut reader, &mut writer).unwrap();

    assert_eq!(phases.len(), 2);
    match &phases[1].steps[0] {
        StepItem::Action { action } => assert_eq!(action, "Again."),
        _ => panic!("an action step"),
    }
    assert_eq!(phases[1].results, vec!["Still works.".to_string()]);
}

#[test]
fn the_input_remembers_how_much_output_preceded_its_first_missing_line() {
    let mut reader = LineInput::from_text("jump\n");
    let mut writer = String::new();
    assert_eq!(reader.shortfall(), None);

    assert_eq!(prompt_line(&mut reader, &mut writer, "Name: "), Ok("jump".to_string()));
    assert_eq!(reader.shortfall(), None);

    assert_eq!(prompt_line(&mut reader, &mut writer, "Next: "), Err(PromptError::UnexpectedEof));
    assert_eq!(writer, "Name: Next: ");
    assert_eq!(reader.shortfall(), Some("Name: Next: ".len()));

    let _ = prompt_line(&mut reader, &mut writer, "Again: ");
    assert_eq!(reader.shortfall(), Some("Name: Next: ".len()));
}

#[test]
fn a_label_with_a_stray_halfwidth_sound_mark_is_refused_and_asked_again() {
    let input = "ﾞ\njump\n";
    let mut reader = LineInput::from_text(input);
    let mut writer = String::new();

    let (id, label) = prompt_id_or_label(&mut reader, &mut writer, "Feature id: ", &Vec::new()).unwrap();

    assert_eq!(id, "jump");
    assert_eq!(label, "jump");
    assert!(writer.contains("id は小文字英数字とハイフンのみ使用できます。"));
}

#[test]
fn halfwidth_sound_marks_are_read_only_after_a_kana_that_takes_them() {
    assert!(is_romanizable("ｶﾞｯｺｳ"));
    assert!(is_romanizable("ﾎﾟ"));
    assert!(!is_romanizable("ﾞ"));
    assert!(!is_romanizable("ｱﾞ"));
    assert!(!is_romanizable("ｶﾞﾞ"));
    assert!(!is_romanizable("ｶﾟ"));
    assert_eq!(romanize_label("ｶﾞ"), "ga");
}
