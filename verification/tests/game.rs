use nimotsukun::level::trim_line_end;
use nimotsukun::play::{begin, turn, Action, Input};
use nimotsukun::Stage;

fn board(text: &str) -> Stage {
    match text.parse::<Stage>() {
        Ok(stage) => stage,
        Err(e) => panic!("{:?} is no level: {:?}", text, e),
    }
}

#[test]
fn keys_have_their_meaning() {
    assert_eq!(Input::from_key(Some('q')), Input::Quit);
    assert_eq!(Input::from_key(Some('w')), Input::Up);
    assert_eq!(Input::from_key(Some('a')), Input::Left);
    assert_eq!(Input::from_key(Some('s')), Input::Down);
    assert_eq!(Input::from_key(Some('d')), Input::Right);
    assert_eq!(Input::from_key(Some('x')), Input::Other);
    assert_eq!(Input::from_key(Some('Q')), Input::Other);
    assert_eq!(Input::from_key(Some('W')), Input::Other);
    assert_eq!(Input::from_key(Some(' ')), Input::Other);
    assert_eq!(Input::from_key(None), Input::Other);
}

#[test]
fn inputs_have_their_direction() {
    assert_eq!(Input::Up.direction(), Some((0, -1)));
    assert_eq!(Input::Left.direction(), Some((-1, 0)));
    assert_eq!(Input::Down.direction(), Some((0, 1)));
    assert_eq!(Input::Right.direction(), Some((1, 0)));
    assert_eq!(Input::Quit.direction(), None);
    assert_eq!(Input::Other.direction(), None);
}

#[test]
fn game_begins_with_a_drawing() {
    assert_eq!(begin(&board("#####\n#.op#\n#####")), Action::Draw);
    assert_eq!(begin(&board("###\n#p#\n###")), Action::Finish);
    assert_eq!(begin(&board("#P#")), Action::Draw);
}

#[test]
fn quit_leaves_the_board_alone() {
    let mut stage = board("#####\n#.op#\n#####");
    assert_eq!(turn(&mut stage, Input::Quit), Action::Quit);
    assert_eq!(stage.to_string(), "######.op######");
}

#[test]
fn other_keys_are_ignored() {
    let mut stage = board("#####\n#.op#\n#####");
    assert_eq!(turn(&mut stage, Input::Other), Action::Draw);
    assert_eq!(stage.to_string(), "######.op######");
    let mut lost = board("#.#");
    assert_eq!(turn(&mut lost, Input::Other), Action::Draw);
    assert_eq!(lost.to_string(), "#.#");
}

#[test]
fn turn_that_clears_the_level_finishes() {
    let mut stage = board("#####\n#.op#\n#####");
    assert_eq!(turn(&mut stage, Input::Right), Action::Draw);
    assert_eq!(stage.to_string(), "######.op######");
    assert_eq!(turn(&mut stage, Input::Left), Action::Finish);
    assert_eq!(stage.to_string(), "######Op ######");
}

#[test]
fn turns_step_as_the_keys_say() {
    let mut stage = board("#####\n#   #\n# p #\n#   #\n#####");
    assert_eq!(turn(&mut stage, Input::from_key(Some('w'))), Action::Finish);
    assert_eq!(stage.to_string(), "###### p ##   ##   ######");
    turn(&mut stage, Input::from_key(Some('a')));
    assert_eq!(stage.to_string(), "######p  ##   ##   ######");
    turn(&mut stage, Input::from_key(Some('s')));
    assert_eq!(stage.to_string(), "######   ##p  ##   ######");
    turn(&mut stage, Input::from_key(Some('d')));
    assert_eq!(stage.to_string(), "######   ## p ##   ######");
}

#[test]
fn board_without_one_player_gives_up() {
    let mut none = board("#####\n#.o #\n#####");
    assert_eq!(turn(&mut none, Input::Left), Action::Abort);
    assert_eq!(none.to_string(), "######.o ######");
    let mut two = board("#####\n#p p#\n#####");
    assert_eq!(turn(&mut two, Input::Right), Action::Abort);
    assert_eq!(two.to_string(), "######p p######");
    assert_eq!(turn(&mut two, Input::Quit), Action::Quit);
}

#[test]
fn line_feed_at_the_end_is_taken_off() {
    assert_eq!(trim_line_end("###\n#p#\n###\n"), "###\n#p#\n###");
    assert_eq!(trim_line_end("###\n#p#\n###"), "###\n#p#\n###");
    assert_eq!(trim_line_end("a\n\n"), "a\n");
    assert_eq!(trim_line_end("\n"), "");
    assert_eq!(trim_line_end(""), "");
    assert_eq!(trim_line_end("é\n"), "é");
    assert_eq!(trim_line_end("#é"), "#é");
}

#[test]
fn file_contents_read_as_a_level() {
    let stage = board(trim_line_end("###\n#p#\n###\n"));
    assert_eq!((stage.width(), stage.height()), (3, 3));
}
