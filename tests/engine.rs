use wordle::evaluation::evaluate;
use wordle::game::Game;
use wordle::status::{GameStatus, LetterStatus, MAX_ATTEMPTS, WORD_LENGTH};
use wordle::words::{words_from_lines, words_of_length};

fn game_with(target: &str) -> Game {
    Game::new(&vec![target.to_string()])
}

fn type_word(game: &mut Game, word: &str) {
    for c in word.chars() {
        game.input_letter(c);
    }
}

fn chars(s: &str) -> Vec<char> {
    s.chars().collect()
}

// The C at position 4 is not in place (target holds E there); it is credited
// by the C at target position 2.
#[test]
fn duplicate_letters_scenario() {
    let r = evaluate(&chars("AABBC"), &chars("ABCDE"));
    assert_eq!(
        r,
        [
            LetterStatus::Correct,
            LetterStatus::Absent,
            LetterStatus::Present,
            LetterStatus::Absent,
            LetterStatus::Present,
        ]
    );
}

#[test]
fn duplicate_letters_through_game() {
    let mut game = game_with("ABCDE");
    type_word(&mut game, "AABBC");
    game.submit_guess();
    assert_eq!(game.current_attempt, 1);
    assert_eq!(game.status, GameStatus::Playing);
    assert_eq!(
        game.letter_statuses[0],
        [
            LetterStatus::Correct,
            LetterStatus::Absent,
            LetterStatus::Present,
            LetterStatus::Absent,
            LetterStatus::Present,
        ]
    );
}

#[test]
fn correct_match_is_not_stolen_by_earlier_duplicate() {
    // The E at position 4 is exact, so the E at position 0 finds no spare E.
    let r = evaluate(&chars("EXXXE"), &chars("ABCDE"));
    assert_eq!(r[0], LetterStatus::Absent);
    assert_eq!(r[4], LetterStatus::Correct);
}

#[test]
fn credited_letters_never_exceed_target_count() {
    let target = chars("ALLOY");
    for guess in ["LLLLL", "LOLLY", "YALLL", "AAAAA", "ALLOY", "XXXXX"] {
        let g = chars(guess);
        let r = evaluate(&g, &target);
        for c in ['A', 'L', 'O', 'Y', 'X'] {
            let credited = (0..WORD_LENGTH)
                .filter(|&i| g[i] == c && r[i] != LetterStatus::Absent)
                .count();
            let in_target = target.iter().filter(|&&t| t == c).count();
            assert!(credited <= in_target, "{} {}", guess, c);
        }
    }
}

#[test]
fn all_absent_and_all_correct() {
    assert_eq!(evaluate(&chars("VWXYZ"), &chars("ABCDE")), [LetterStatus::Absent; 5]);
    assert_eq!(evaluate(&chars("ABCDE"), &chars("ABCDE")), [LetterStatus::Correct; 5]);
    assert_eq!(evaluate(&chars("EABCD"), &chars("ABCDE")), [LetterStatus::Present; 5]);
}

#[test]
fn fresh_game_state() {
    let game = game_with("CRANE");
    assert_eq!(game.status, GameStatus::Playing);
    assert_eq!(game.current_attempt, 0);
    assert_eq!(game.target_word, "CRANE");
    assert_eq!(game.attempts.len(), MAX_ATTEMPTS);
    assert!(game.attempts.iter().all(|a| a.is_empty()));
    assert!(game
        .letter_statuses
        .iter()
        .all(|row| row.iter().all(|s| *s == LetterStatus::Unused)));
    assert!(game.message.is_none());
    assert_eq!(game.message_timer, 0);
    assert!(!game.should_quit);
}

#[test]
fn empty_word_source_falls_back() {
    let game = Game::new(&Vec::new());
    assert_eq!(game.target_word, "PROVA");
    assert_eq!(game.status, GameStatus::Playing);
}

#[test]
fn target_is_drawn_from_the_list() {
    let words = vec!["CRANE".to_string(), "SLATE".to_string(), "PIANO".to_string()];
    for _ in 0..20 {
        let game = Game::new(&words);
        assert!(words.contains(&game.target_word));
    }
}

#[test]
fn winning_guess_keeps_attempt_index() {
    let mut game = game_with("CRANE");
    type_word(&mut game, "SLATE");
    game.submit_guess();
    assert_eq!(game.current_attempt, 1);
    type_word(&mut game, "CRANE");
    game.submit_guess();
    assert_eq!(game.status, GameStatus::Won);
    assert_eq!(game.current_attempt, 1);
    assert_eq!(game.letter_statuses[1], [LetterStatus::Correct; 5]);
}

#[test]
fn losing_after_all_misses() {
    let mut game = game_with("CRANE");
    for k in 0..MAX_ATTEMPTS {
        assert_eq!(game.status, GameStatus::Playing);
        type_word(&mut game, "SLATE");
        game.submit_guess();
        assert_eq!(game.current_attempt, k + 1);
    }
    assert_eq!(game.status, GameStatus::Lost);
    assert_eq!(game.current_attempt, MAX_ATTEMPTS);
    // Nothing moves any more.
    game.input_letter('A');
    game.delete_letter();
    game.submit_guess();
    assert_eq!(game.status, GameStatus::Lost);
    assert_eq!(game.current_attempt, MAX_ATTEMPTS);
}

#[test]
fn incomplete_guess_is_ignored() {
    let mut game = game_with("CRANE");
    type_word(&mut game, "CRAN");
    game.submit_guess();
    assert_eq!(game.current_attempt, 0);
    assert_eq!(game.status, GameStatus::Playing);
    assert_eq!(game.letter_statuses[0], [LetterStatus::Unused; 5]);
}

#[test]
fn input_stops_at_word_length() {
    let mut game = game_with("CRANE");
    type_word(&mut game, "ABCDEFG");
    assert_eq!(game.attempts[0], chars("ABCDE"));
}

#[test]
fn delete_on_empty_attempt_is_ignored() {
    let mut game = game_with("CRANE");
    game.delete_letter();
    assert!(game.attempts[0].is_empty());
    type_word(&mut game, "AB");
    game.delete_letter();
    assert_eq!(game.attempts[0], vec!['A']);
}

#[test]
fn input_then_delete_round_trip() {
    let mut game = game_with("CRANE");
    type_word(&mut game, "CR");
    let before = game.attempts.clone();
    game.input_letter('X');
    game.delete_letter();
    assert_eq!(game.attempts, before);
}

#[test]
fn edits_ignored_unless_playing() {
    let mut game = game_with("CRANE");
    type_word(&mut game, "CR");
    game.quit();
    assert_eq!(game.status, GameStatus::Quitting);
    game.input_letter('X');
    assert_eq!(game.attempts[0], chars("CR"));
    game.delete_letter();
    assert_eq!(game.attempts[0], chars("CR"));
    type_word(&mut game, "ANE");
    game.submit_guess();
    assert_eq!(game.current_attempt, 0);
    game.cancel_quit();
    assert_eq!(game.status, GameStatus::Playing);
    type_word(&mut game, "ANE");
    game.submit_guess();
    assert_eq!(game.status, GameStatus::Won);
    game.quit();
    assert_eq!(game.status, GameStatus::Won);
    game.cancel_quit();
    assert_eq!(game.status, GameStatus::Won);
}

#[test]
fn keyboard_aggregates_strongest_status() {
    let mut game = game_with("CRANE");
    let key = |c: char| (c as u8 - b'A') as usize;
    assert_eq!(game.get_keyboard_status(), [LetterStatus::Unused; 26]);
    type_word(&mut game, "NACRE");
    game.submit_guess();
    let k1 = game.get_keyboard_status();
    assert_eq!(k1[key('N')], LetterStatus::Present);
    assert_eq!(k1[key('A')], LetterStatus::Present);
    assert_eq!(k1[key('E')], LetterStatus::Correct);
    assert_eq!(k1[key('Z')], LetterStatus::Unused);
    type_word(&mut game, "SLANT");
    game.submit_guess();
    let k2 = game.get_keyboard_status();
    assert_eq!(k2[key('A')], LetterStatus::Correct);
    assert_eq!(k2[key('N')], LetterStatus::Correct);
    assert_eq!(k2[key('S')], LetterStatus::Absent);
    type_word(&mut game, "ZZZZA");
    game.submit_guess();
    let k3 = game.get_keyboard_status();
    assert_eq!(k3[key('A')], LetterStatus::Correct);
    assert_eq!(k3[key('Z')], LetterStatus::Absent);
    for i in 0..26 {
        assert!(k2[i].rank() >= k1[i].rank());
        assert!(k3[i].rank() >= k2[i].rank());
    }
}

#[test]
fn keyboard_ignores_winning_row_and_lowercase() {
    let mut game = game_with("CRANE");
    type_word(&mut game, "crane");
    game.submit_guess();
    assert_eq!(game.status, GameStatus::Playing);
    assert_eq!(game.get_keyboard_status(), [LetterStatus::Unused; 26]);
    type_word(&mut game, "CRANE");
    game.submit_guess();
    assert_eq!(game.status, GameStatus::Won);
    assert_eq!(game.get_keyboard_status(), [LetterStatus::Unused; 26]);
}

#[test]
fn tick_clears_message() {
    let mut game = game_with("CRANE");
    game.message = Some("hello".to_string());
    game.message_timer = 2;
    game.on_tick();
    assert_eq!(game.message_timer, 1);
    assert_eq!(game.message.as_deref(), Some("hello"));
    game.on_tick();
    assert_eq!(game.message_timer, 0);
    assert!(game.message.is_none());
    game.on_tick();
    assert_eq!(game.message_timer, 0);
}

#[test]
fn strength_order() {
    assert_eq!(LetterStatus::Unused.rank(), 0);
    assert_eq!(LetterStatus::Absent.rank(), 1);
    assert_eq!(LetterStatus::Present.rank(), 2);
    assert_eq!(LetterStatus::Correct.rank(), 3);
    assert_eq!(LetterStatus::Absent.max_strength(LetterStatus::Present), LetterStatus::Present);
    assert_eq!(LetterStatus::Correct.max_strength(LetterStatus::Absent), LetterStatus::Correct);
    assert_eq!(LetterStatus::Unused.max_strength(LetterStatus::Unused), LetterStatus::Unused);
}

#[test]
fn word_lines_are_trimmed_uppercased_and_filtered() {
    let lines = vec![
        "  crane \t".to_string(),
        "tea".to_string(),
        "Slate".to_string(),
        "toolong".to_string(),
        "".to_string(),
        "piano\r".to_string(),
    ];
    assert_eq!(
        words_from_lines(&lines),
        vec!["CRANE".to_string(), "SLATE".to_string(), "PIANO".to_string()]
    );
    assert!(words_from_lines(&Vec::new()).is_empty());
}

#[test]
fn with_target_starts_fresh_on_given_word() {
    let game = Game::with_target("SLATE".to_string());
    assert_eq!(game.target_word, "SLATE");
    assert_eq!(game.status, GameStatus::Playing);
    assert_eq!(game.current_attempt, 0);
    assert!(game.attempts.iter().all(|a| a.is_empty()));
    assert_eq!(game.letter_statuses, [[LetterStatus::Unused; WORD_LENGTH]; MAX_ATTEMPTS]);
}

#[test]
fn length_filter_counts_letters() {
    let words = vec![
        "CAFÉS".to_string(),
        "ABCD".to_string(),
        "ABCDEF".to_string(),
        "PROVA".to_string(),
    ];
    assert_eq!(
        words_of_length(words),
        vec!["CAFÉS".to_string(), "PROVA".to_string()]
    );
    assert!(words_of_length(Vec::new()).is_empty());
}

#[test]
fn non_ascii_target_is_evaluated_by_letters() {
    let mut game = Game::with_target("CAFÉS".to_string());
    type_word(&mut game, "CAFÉS");
    game.submit_guess();
    assert_eq!(game.status, GameStatus::Won);
}
