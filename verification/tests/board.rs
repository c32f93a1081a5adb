use nimotsukun::{ParseStageError, Stage, State};

const SAMPLE: &str = "########\n# .. p #\n# oo   #\n#      #\n########";

fn read(text: &str) -> Stage {
    match text.parse::<Stage>() {
        Ok(stage) => stage,
        Err(e) => panic!("{:?} is no level: {:?}", text, e),
    }
}

fn failure(text: &str) -> ParseStageError {
    match text.parse::<Stage>() {
        Ok(_) => panic!("{:?} should be no level", text),
        Err(e) => e,
    }
}

fn drawn_after(text: &str, steps: &[(i32, i32)]) -> String {
    let mut stage = read(text);
    for &(dx, dy) in steps {
        stage.update(dx, dy);
    }
    stage.to_string()
}

const UP: (i32, i32) = (0, -1);
const DOWN: (i32, i32) = (0, 1);
const LEFT: (i32, i32) = (-1, 0);
const RIGHT: (i32, i32) = (1, 0);

#[test]
fn reads_the_sample_level() {
    let stage = read(SAMPLE);
    assert_eq!(stage.width(), 8);
    assert_eq!(stage.height(), 5);
    assert_eq!(stage.to_string(), "######### .. p ## oo   ##      #########");
    assert!(stage.has_unique_player());
    assert!(!stage.check_clear());
}

#[test]
fn reading_twice_gives_the_same_board() {
    let first = read(SAMPLE);
    let second = read(SAMPLE);
    assert_eq!(first.width(), second.width());
    assert_eq!(first.height(), second.height());
    assert_eq!(first.to_string(), second.to_string());
    assert_eq!(failure("#\n##"), failure("#\n##"));
    assert_eq!(failure("#x#"), failure("#x#"));
}

#[test]
fn drawing_gives_the_text_back_without_line_feeds() {
    for text in [SAMPLE, "###\n#p#\n###", " #.oOpP", "", "p", "#.\nOp\n  "] {
        assert_eq!(read(text).to_string(), text.replace('\n', ""));
    }
}

#[test]
fn every_glyph_is_read_as_its_square() {
    let glyphs = [' ', '#', '.', 'o', 'O', 'p', 'P'];
    let squares = [
        State::Nothing,
        State::Wall,
        State::Hall,
        State::Block,
        State::BlockOnHall,
        State::Player,
        State::PlayerOnHall,
    ];
    for (glyph, square) in glyphs.iter().zip(squares.iter()) {
        assert_eq!(State::from_glyph(*glyph), Some(*square));
        assert_eq!(square.glyph(), *glyph);
        assert_eq!(square.glyph_str(), glyph.to_string());
    }
    for other in ['x', 'q', '\n', '\r', '\t', '0', 'é'] {
        assert_eq!(State::from_glyph(other), None);
    }
}

#[test]
fn squares_change_as_things_come_and_go() {
    assert_eq!(State::Nothing.entered(), State::Player);
    assert_eq!(State::Hall.entered(), State::PlayerOnHall);
    assert_eq!(State::Block.entered(), State::Player);
    assert_eq!(State::BlockOnHall.entered(), State::PlayerOnHall);
    assert_eq!(State::Nothing.loaded(), State::Block);
    assert_eq!(State::Hall.loaded(), State::BlockOnHall);
    assert_eq!(State::Player.emptied(), State::Nothing);
    assert_eq!(State::PlayerOnHall.emptied(), State::Hall);
    assert_eq!(State::Block.emptied(), State::Nothing);
    assert_eq!(State::BlockOnHall.emptied(), State::Hall);
    assert_eq!(State::Wall.emptied(), State::Wall);
}

#[test]
fn sides_come_from_the_lines() {
    let stage = read("#.\nOp\n  ");
    assert_eq!(stage.width(), 2);
    assert_eq!(stage.height(), 3);
    let line = read("#p  #");
    assert_eq!((line.width(), line.height()), (5, 1));
}

#[test]
fn empty_text_is_one_empty_row() {
    let stage = read("");
    assert_eq!((stage.width(), stage.height()), (0, 1));
    assert_eq!(stage.to_string(), "");
    assert!(stage.check_clear());
    assert!(!stage.has_unique_player());
    assert!(stage.rows() == vec![String::new()]);
}

#[test]
fn line_feeds_alone_are_empty_rows() {
    let stage = read("\n\n");
    assert_eq!((stage.width(), stage.height()), (0, 3));
    assert_eq!(stage.to_string(), "");
    assert_eq!(stage.rows().len(), 3);
}

#[test]
fn ragged_rows_are_refused_with_the_first_width() {
    assert_eq!(failure("###\n##\n###"), ParseStageError::StageWidthValidationError(3));
    assert_eq!(failure("##\n###"), ParseStageError::StageWidthValidationError(2));
    assert_eq!(failure("\n#"), ParseStageError::StageWidthValidationError(0));
    assert_eq!(failure("####\n####\n###"), ParseStageError::StageWidthValidationError(4));
}

#[test]
fn a_line_feed_at_the_end_is_an_empty_last_row() {
    assert_eq!(failure("###\n#p#\n###\n"), ParseStageError::StageWidthValidationError(3));
}

#[test]
fn unknown_glyph_is_refused() {
    assert_eq!(failure("#x#"), ParseStageError::UnknownObjectError);
    assert_eq!(failure("###\n#x#\n###"), ParseStageError::UnknownObjectError);
    assert_eq!(failure("#p#\r\n###\r"), ParseStageError::UnknownObjectError);
    assert_eq!(failure("x"), ParseStageError::UnknownObjectError);
}

#[test]
fn width_is_checked_before_glyphs() {
    assert_eq!(failure("x\n##"), ParseStageError::StageWidthValidationError(1));
    assert_eq!(failure("##\nx"), ParseStageError::StageWidthValidationError(2));
}

#[test]
fn width_counts_characters() {
    assert_eq!(failure("é\n#"), ParseStageError::UnknownObjectError);
    assert_eq!(failure("é\n##"), ParseStageError::StageWidthValidationError(1));
}

#[test]
fn reading_asks_for_no_player_and_no_border() {
    let bare = read("...\n...");
    assert!(!bare.has_unique_player());
    let crowded = read("pP");
    assert!(!crowded.has_unique_player());
    assert!(read(" p ").has_unique_player());
    assert!(read("oPo").has_unique_player());
}

#[test]
fn boxed_in_player_stays_and_counts_as_cleared() {
    let text = "###\n#p#\n###";
    for step in [UP, DOWN, LEFT, RIGHT] {
        assert_eq!(drawn_after(text, &[step]), "####p####");
    }
    assert!(read(text).check_clear());
}

#[test]
fn block_with_its_back_to_the_wall_stays() {
    let text = "####\n#op#\n#.  \n####";
    let mut stage = read(text);
    stage.update(-1, 0);
    assert_eq!(stage.to_string(), "#####op##.  ####");
    assert!(!stage.check_clear());
    assert!(stage.has_unique_player());
}

#[test]
fn pushing_left_puts_the_block_on_the_hall() {
    let mut stage = read("#####\n#.op#\n#####");
    assert!(!stage.check_clear());
    stage.update(-1, 0);
    assert_eq!(stage.to_string(), "######Op ######");
    assert!(stage.check_clear());
    assert!(stage.has_unique_player());
}

#[test]
fn pushing_down_puts_the_block_on_the_hall() {
    let mut stage = read("####\n#p #\n#o #\n#. #\n####");
    stage.update(0, 1);
    assert_eq!(stage.to_string(), "#####  ##p ##O #####");
    assert!(stage.check_clear());
}

#[test]
fn walking_in_all_four_directions() {
    let text = "#####\n#   #\n# p #\n#   #\n#####";
    assert_eq!(drawn_after(text, &[UP]), "###### p ##   ##   ######");
    assert_eq!(drawn_after(text, &[DOWN]), "######   ##   ## p ######");
    assert_eq!(drawn_after(text, &[LEFT]), "######   ##p  ##   ######");
    assert_eq!(drawn_after(text, &[RIGHT]), "######   ##  p##   ######");
    assert_eq!(drawn_after(text, &[UP, LEFT, DOWN, RIGHT]), text.replace('\n', ""));
}

#[test]
fn player_on_a_hall_does_not_clear_it() {
    let mut stage = read("#####\n#p. #\n#####");
    stage.update(1, 0);
    assert_eq!(stage.to_string(), "###### P ######");
    assert!(!stage.check_clear());
    stage.update(1, 0);
    assert_eq!(stage.to_string(), "###### .p######");
    assert!(!stage.check_clear());
}

#[test]
fn block_leaves_its_hall_when_pushed() {
    let mut stage = read("######\n#pO  #\n######");
    assert!(stage.check_clear());
    stage.update(1, 0);
    assert_eq!(stage.to_string(), "####### Po #######");
    assert!(!stage.check_clear());
    stage.update(1, 0);
    assert_eq!(stage.to_string(), "####### .po#######");
}

#[test]
fn block_is_pushed_from_hall_to_hall() {
    let mut stage = read("#####\n#PO.#\n#####");
    stage.update(1, 0);
    assert_eq!(stage.to_string(), "######.PO######");
    assert!(!stage.check_clear());
}

#[test]
fn wall_ahead_changes_nothing() {
    let text = "####\n#p##\n#  #\n####";
    assert_eq!(drawn_after(text, &[RIGHT]), text.replace('\n', ""));
    assert_eq!(drawn_after(text, &[UP]), text.replace('\n', ""));
    assert_eq!(drawn_after(text, &[LEFT]), text.replace('\n', ""));
}

#[test]
fn block_against_block_changes_nothing() {
    let text = "######\n#poo #\n######";
    assert_eq!(drawn_after(text, &[RIGHT]), text.replace('\n', ""));
    let halls = "######\n#pOO.#\n######";
    assert_eq!(drawn_after(halls, &[RIGHT]), halls.replace('\n', ""));
}

#[test]
fn block_against_wall_changes_nothing() {
    let text = "#####\n#po##\n#####";
    assert_eq!(drawn_after(text, &[RIGHT]), text.replace('\n', ""));
}

#[test]
fn block_at_the_edge_is_not_pushed_off_the_board() {
    let text = "   \nop \n   ";
    assert_eq!(drawn_after(text, &[LEFT]), text.replace('\n', ""));
    let top = " o \n p \n   ";
    assert_eq!(drawn_after(top, &[UP]), top.replace('\n', ""));
}

#[test]
fn block_may_be_pushed_into_the_last_column_and_row() {
    assert_eq!(drawn_after("po \n   ", &[RIGHT]), " po   ");
    assert_eq!(drawn_after("p \no \n  ", &[DOWN]), "  p o ");
}

#[test]
fn player_keeps_out_of_the_last_column_and_row() {
    let text = "   \n p \n   ";
    assert_eq!(drawn_after(text, &[RIGHT]), text.replace('\n', ""));
    assert_eq!(drawn_after(text, &[DOWN]), text.replace('\n', ""));
    assert_eq!(drawn_after(text, &[LEFT]), "   p     ");
    assert_eq!(drawn_after(text, &[UP]), " p       ");
    assert_eq!(drawn_after(text, &[UP, UP]), " p       ");
    assert_eq!(drawn_after(text, &[LEFT, LEFT]), "   p     ");
}

#[test]
fn single_row_allows_no_step() {
    for step in [UP, DOWN, LEFT, RIGHT] {
        assert_eq!(drawn_after(" p ", &[step]), " p ");
    }
}

#[test]
fn moves_go_on_after_the_level_is_cleared() {
    let mut stage = read("######\n#.op #\n######");
    stage.update(-1, 0);
    assert!(stage.check_clear());
    stage.update(1, 0);
    assert_eq!(stage.to_string(), "#######O p #######");
    assert!(stage.check_clear());
}

#[test]
fn every_step_keeps_one_player_and_the_floor() {
    let mut stage = read(SAMPLE);
    let walls =
        |s: &Stage| s.to_string().chars().map(|c| c == '#').collect::<Vec<bool>>();
    let halls = |s: &Stage| {
        s.to_string().chars().map(|c| c == '.' || c == 'O' || c == 'P').collect::<Vec<bool>>()
    };
    let blocks = |s: &Stage| s.to_string().chars().filter(|c| *c == 'o' || *c == 'O').count();
    let (w0, h0, b0) = (walls(&stage), halls(&stage), blocks(&stage));
    let steps = [LEFT, DOWN, LEFT, LEFT, UP, RIGHT, DOWN, DOWN, LEFT, UP, UP, UP, RIGHT, RIGHT];
    for (dx, dy) in steps.iter().cycle().take(200) {
        stage.update(*dx, *dy);
        assert!(stage.has_unique_player());
        assert_eq!(walls(&stage), w0);
        assert_eq!(halls(&stage), h0);
        assert_eq!(blocks(&stage), b0);
        assert_eq!((stage.width(), stage.height()), (8, 5));
    }
}

#[test]
fn sample_level_can_be_cleared() {
    let mut stage = read(SAMPLE);
    for (dx, dy) in [DOWN, DOWN, LEFT, LEFT, UP, DOWN, LEFT, UP] {
        assert!(!stage.check_clear());
        stage.update(dx, dy);
    }
    assert_eq!(stage.to_string(), "######### OO   ## p    ##      #########");
    assert!(stage.check_clear());
}

#[test]
fn check_clear_looks_at_the_squares_alone() {
    assert!(read("###").check_clear());
    assert!(read("#O#").check_clear());
    assert!(read("pOo O").check_clear());
    assert!(!read("#.#").check_clear());
    assert!(!read("#P#").check_clear());
    assert!(!read("OOO.").check_clear());
    assert!(!read(".OOO").check_clear());
}

#[test]
fn rows_are_the_drawn_lines() {
    let stage = read(SAMPLE);
    let lines: Vec<&str> = SAMPLE.split('\n').collect();
    assert!(stage.rows() == lines);
    let mut moved = read("#####\n#.op#\n#####");
    moved.update(-1, 0);
    assert!(moved.rows() == vec!["#####", "#Op #", "#####"]);
    assert_eq!(moved.rows().concat(), moved.to_string());
}
