use words_with_toddlers::celebration::Celebration;
use words_with_toddlers::config::AppConfig;
use words_with_toddlers::grade_level::GradeLevel;
use words_with_toddlers::session::Session;
use words_with_toddlers::system_sound::{default_sound, get_sound_by_name, get_sound_path, sounds};
use words_with_toddlers::tic_tac_toe::{GameState, Player, TicTacToe};
use words_with_toddlers::word_list_loader::WordListLoader;

fn eight_sources() -> Vec<String> {
    vec![
        "a\nand\n".to_string(),
        "all\nam\n".to_string(),
        "after\nagain\nthe\n".to_string(),
        "always\naround\n".to_string(),
        "about\nbetter\n".to_string(),
        "high\nevery\n".to_string(),
        "body\nmusic\n".to_string(),
        "country\nfather\n".to_string(),
    ]
}

#[test]
fn loader_parses_one_bank_per_grade() {
    let loader = WordListLoader::new(eight_sources());
    let prek = loader.get_words_for_grade(GradeLevel::PreK).unwrap();
    assert_eq!(prek, &vec!["a".to_string(), "and".to_string()]);
    let first = loader.get_words_for_grade(GradeLevel::First).unwrap();
    assert_eq!(
        first,
        &vec!["after".to_string(), "again".to_string(), "the".to_string()]
    );
    assert_eq!(loader.word_count_for_grade(GradeLevel::PreK), 2);
    assert_eq!(loader.word_count_for_grade(GradeLevel::First), 3);
    assert_eq!(loader.word_count_for_grade(GradeLevel::Sixth), 2);
}

#[test]
fn load_words_trims_and_lowercases() {
    let words = WordListLoader::load_words("  The \n\nQUICK\r\nfox  \n");
    assert_eq!(
        words,
        vec!["the".to_string(), "quick".to_string(), "fox".to_string()]
    );
}

#[test]
fn load_words_of_empty_text_is_empty() {
    assert_eq!(WordListLoader::load_words(""), Vec::<String>::new());
    assert_eq!(WordListLoader::load_words("\n\n  \n"), Vec::<String>::new());
}

#[test]
fn default_sound_is_the_swoosh() {
    let d = default_sound();
    assert_eq!(d.name, "Swoosh");
    assert_eq!(d.path, "../shared/sounds/Swoosh.wav");
}

#[test]
fn sounds_list_the_curated_six() {
    let all = sounds();
    assert_eq!(all.len(), 6);
    assert_eq!(all[0].name, "Swoosh");
    assert_eq!(all[5].name, "Ding");
    for s in &all {
        assert_eq!(s.display_name, s.name);
        assert_eq!(s.path, format!("../shared/sounds/{}.wav", s.name));
    }
}

#[test]
fn sound_lookup_by_name() {
    let bell = get_sound_by_name("Bell").unwrap();
    assert_eq!(bell.name, "Bell");
    assert_eq!(bell.path, "../shared/sounds/Bell.wav");
    assert!(get_sound_by_name("Gong").is_none());
    assert!(get_sound_by_name("bell").is_none(), "lookup is by exact name");
}

#[test]
fn unknown_sound_falls_back_to_default() {
    assert_eq!(get_sound_path("Chime"), "../shared/sounds/Chime.wav");
    assert_eq!(get_sound_path("Gong"), "../shared/sounds/Swoosh.wav");
    assert_eq!(get_sound_path(""), "../shared/sounds/Swoosh.wav");
}

#[test]
fn config_defaults() {
    let c = AppConfig::default();
    assert_eq!(c.selected_sound, "Swoosh");
    assert_eq!(c.last_selected_grade, GradeLevel::PreK);
    assert!(c.use_uppercase);
}

#[test]
fn session_records_its_inputs() {
    let s = Session::new(
        "dogcat".to_string(),
        vec!["dog".to_string(), "cat".to_string()],
    );
    assert_eq!(s.typed_text, "dogcat");
    assert_eq!(s.discovered_words, vec!["dog".to_string(), "cat".to_string()]);
    assert_eq!(s.duration_seconds, None);
    assert!(!s.timestamp.is_empty());
}

#[test]
fn celebration_runs_its_course() {
    let c = Celebration::new(1000);
    assert!(c.is_active(1000));
    assert!(c.is_active(2499));
    assert!(!c.is_active(2500));
    assert!(!c.is_active(10_000));
    // A clock reading before the start still counts as active.
    assert!(c.is_active(0));
}

#[test]
fn crossing_line_wins_the_game() {
    let mut game = TicTacToe::new();
    assert_eq!(game.current_player(), Player::X);
    assert!(game.make_move(0)); // X
    assert!(game.make_move(3)); // O
    assert!(game.make_move(1)); // X
    assert!(game.make_move(4)); // O
    assert!(game.make_move(2)); // X completes the top row
    assert_eq!(game.game_state, GameState::Won(Player::X));
    // No further move is accepted once the game is over.
    assert!(!game.make_move(5));
}

#[test]
fn full_board_without_line_is_a_draw() {
    let mut game = TicTacToe::new();
    // X O X / X O O / O X X leaves no three in a line.
    for position in [0, 4, 8, 1, 7, 6, 2, 5, 3] {
        assert!(game.make_move(position));
    }
    assert_eq!(game.game_state, GameState::Draw);
}

#[test]
fn occupied_and_off_board_moves_are_refused() {
    let mut game = TicTacToe::new();
    assert!(game.make_move(4));
    assert!(!game.make_move(4), "an occupied cell is refused");
    assert!(!game.make_move(9), "a position off the board is refused");
    assert_eq!(game.current_player(), Player::O);
    assert_eq!(game.get_cell(4), Some(Player::X));
    assert_eq!(game.get_cell(9), None);
}

#[test]
fn turns_alternate_between_players() {
    let mut game = TicTacToe::new();
    assert_eq!(game.current_player(), Player::X);
    game.make_move(0);
    assert_eq!(game.current_player(), Player::O);
    game.make_move(1);
    assert_eq!(game.current_player(), Player::X);
    assert_eq!(Player::X.other(), Player::O);
    assert_eq!(Player::O.other(), Player::X);
}

#[test]
fn reset_starts_over() {
    let mut game = TicTacToe::new();
    game.make_move(0);
    game.make_move(1);
    game.reset();
    assert_eq!(game.game_state, GameState::Playing);
    assert_eq!(game.current_player(), Player::X);
    for position in 0..9 {
        assert_eq!(game.get_cell(position), None);
    }
}
