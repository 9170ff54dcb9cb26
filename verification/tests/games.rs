use linesum::args::Args;
use linesum::game::{CubeColor, CubeError, CubeSet, Cubes, Game, Parameters};
use linesum::game_text::number_text;

#[test]
fn test_valid_line() {
    let input_output: Vec<(&str, (usize, usize, usize, usize))> = vec![
        ("Game 1: 1 red, 2 green, 3 blue ", (1, 1, 2, 3)),
        ("Game 2: 3 red, 8 green, 7 blue ", (2, 3, 8, 7)),
        ("Game 1010: 1337 red, 420 green, 69 blue ", (1010, 1337, 420, 69)),
    ];

    for io in input_output {
        match Game::new(io.0) {
            Some(game) => {
                assert_eq!(io.1 .0, game.id());
                assert_eq!(io.1 .1, game.red_max());
                assert_eq!(io.1 .2, game.green_max());
                assert_eq!(io.1 .3, game.blue_max());
            }
            None => continue,
        }
    }
}

#[test]
fn test_valid_sum() {
    let input_output: Vec<(Vec<&str>, usize)> = vec![
        (
            vec![
                "Game 1: 1 red, 2 blue, 3 red",
                "Game 2: 13 red, 14 blue, 15 red",
                "Game 3: 1 red, 2 blue, 3 red",
                "Game 4: 1 red, 2 blue, 3 red",
                "Game 5: 1 red, 2 blue, 3 red",
            ],
            0,
        ),
        (
            vec![
                "Game 1: 13 red, 14 blue, 15 red",
                "Game 2: 1 red, 1 blue, 1 red",
                "Game 3: 13 red, 14 blue, 15 red",
                "Game 4: 13 red, 14 blue, 15 red",
                "Game 5: 13 red, 14 blue, 15 red",
            ],
            0,
        ),
    ];

    for io in input_output {
        let mut sum = 0;
        for io in io.0 {
            match Game::new(io) {
                Some(game) => {
                    sum += game.red_max() * game.blue_max() * game.green_max();
                }
                None => continue,
            }
        }

        assert_eq!(io.1, sum);
    }
}

#[test]
fn valid_lines_are_games() {
    let game = Game::new("Game 1: 1 red, 2 green, 3 blue ").expect("a game");
    assert_eq!(
        (game.id(), game.red_max(), game.green_max(), game.blue_max()),
        (1, 1, 2, 3)
    );
    let game = Game::new("Game 1010: 1337 red, 420 green, 69 blue ").expect("a game");
    assert_eq!(
        (game.id(), game.red_max(), game.green_max(), game.blue_max()),
        (1010, 1337, 420, 69)
    );
}

#[test]
fn maxima_are_taken_over_the_sets() {
    let game =
        Game::new("Game 3: 8 green, 6 blue, 20 red; 5 blue, 4 red, 13 green; 5 green, 1 red")
            .expect("a game");
    assert_eq!(game.id(), 3);
    assert_eq!(game.red_max(), 20);
    assert_eq!(game.green_max(), 13);
    assert_eq!(game.blue_max(), 6);
    assert_eq!(game.sets().len(), 3);
    assert_eq!(game.power(), Some(1560));
}

#[test]
fn counts_of_one_colour_add_up_within_a_set() {
    let game = Game::new("Game 1: 1 red, 2 blue, 3 red").expect("a game");
    assert_eq!(game.red_max(), 4);
    assert_eq!(game.blue_max(), 2);
    assert_eq!(game.green_max(), 0);
    assert_eq!(game.power(), Some(0));
    let game = Game::new("Game 2: 13 red, 14 blue, 15 red").expect("a game");
    assert_eq!(game.red_max(), 28);
    assert_eq!(game.blue_max(), 14);
}

#[test]
fn game_number_is_the_last_word_of_the_head() {
    assert_eq!(Game::new("Game 12: 1 red").expect("a game").id(), 12);
    assert_eq!(Game::new("12: 1 red").expect("a game").id(), 12);
    assert_eq!(Game::new("The big game 7: 1 red").expect("a game").id(), 7);
    assert_eq!(Game::new("Game +7: 1 red").expect("a game").id(), 7);
    assert_eq!(Game::new("Game 007: 1 red").expect("a game").id(), 7);
    assert!(Game::new("Game 12 : 1 red").is_none());
    assert!(Game::new("Game: 1 red").is_none());
    assert!(Game::new("Game -1: 1 red").is_none());
    assert!(Game::new(": 1 red").is_none());
}

#[test]
fn lines_that_write_no_game() {
    assert!(Game::new("").is_none());
    assert!(Game::new("Game 1").is_none());
    assert!(Game::new("Game 1:").is_none());
    assert!(Game::new("Game 1: ").is_none());
    assert!(Game::new("Game 1: 3 yellow").is_none());
    assert!(Game::new("Game 1: red 3").is_none());
    assert!(Game::new("Game 1: 3").is_none());
    assert!(Game::new("Game 1: 3 red,").is_none());
    assert!(Game::new("Game 1: 3 red;").is_none());
    assert!(Game::new("Game 1: 3  red").is_none());
    assert!(Game::new("Game 1: 3 Red").is_none());
    assert!(Game::new("Game 99999999999999999999999999: 3 red").is_none());
}

#[test]
fn text_after_a_second_colon_is_not_read() {
    let game = Game::new("Game 4: 2 red: 9 yellow").expect("a game");
    assert_eq!(game.id(), 4);
    assert_eq!(game.red_max(), 2);
}

#[test]
fn words_after_the_colour_are_not_read() {
    let game = Game::new("Game 4: 2 red cubes, 1 blue or so").expect("a game");
    assert_eq!(game.red_max(), 2);
    assert_eq!(game.blue_max(), 1);
}

#[test]
fn totals_beyond_the_machine_are_no_game() {
    let most = usize::MAX;
    assert_eq!(
        Game::new(&format!("Game 1: {} red", most)).expect("a game").red_max(),
        most
    );
    assert!(Game::new(&format!("Game 1: {} red, 1 red", most)).is_none());
    assert!(Game::new(&format!("Game 1: 2 blue; {} green, 5 red, 1 green", most)).is_none());
    assert!(Game::new(&format!("Game 1: {}0 red", most)).is_none());
}

#[test]
fn power_beyond_the_machine_is_absent() {
    let most = usize::MAX;
    let game = Game::new(&format!("Game 1: {} red, 2 blue, 1 green", most)).expect("a game");
    assert_eq!(game.power(), None);
    let game = Game::new(&format!("Game 1: {} red, 1 blue, 2 green", most)).expect("a game");
    assert_eq!(game.power(), None);
    let game = Game::new(&format!("Game 1: {} red, 1 blue, 1 green", most)).expect("a game");
    assert_eq!(game.power(), Some(most));
    let game = Game::new(&format!("Game 1: {} red, {} blue", most, most)).expect("a game");
    assert_eq!(game.power(), Some(0));
}

#[test]
fn games_within_the_targets_are_kept() {
    let parameters = Parameters::new(12, 13, 14);
    assert_eq!(
        parameters,
        Parameters { target_red: 12, target_green: 13, target_blue: 14 }
    );
    let lines = [
        "Game 1: 3 blue, 4 red; 1 red, 2 green, 6 blue; 2 green",
        "Game 2: 1 blue, 2 green; 3 green, 4 blue, 1 red; 1 green, 1 blue",
        "Game 3: 8 green, 6 blue, 20 red; 5 blue, 4 red, 13 green; 5 green, 1 red",
        "Game 4: 1 green, 3 red, 6 blue; 3 green, 6 red; 3 green, 15 blue, 14 red",
        "Game 5: 6 red, 1 blue, 3 green; 2 blue, 1 red, 2 green",
    ];
    let mut ids = 0;
    let mut powers = 0;
    for line in lines {
        if let Some(game) = Game::new_within(&parameters, line) {
            ids += game.id();
        }
        powers += Game::new(line).expect("a game").power().expect("a power");
    }
    assert_eq!(ids, 8);
    assert_eq!(powers, 2286);
}

#[test]
fn targets_are_inclusive() {
    let line = "Game 9: 12 red, 13 green, 14 blue";
    assert!(Game::new_within(&Parameters::new(12, 13, 14), line).is_some());
    assert!(Game::new_within(&Parameters::new(11, 13, 14), line).is_none());
    assert!(Game::new_within(&Parameters::new(12, 12, 14), line).is_none());
    assert!(Game::new_within(&Parameters::new(12, 13, 13), line).is_none());
    assert!(Game::new_within(&Parameters::new(12, 13, 14), "no game").is_none());
}

#[test]
fn colours_are_named_exactly() {
    assert_eq!(CubeColor::new("red"), Ok(CubeColor::Red));
    assert_eq!(CubeColor::new("green"), Ok(CubeColor::Green));
    assert_eq!(CubeColor::new("blue"), Ok(CubeColor::Blue));
    assert_eq!(CubeColor::new("Red"), Err(CubeError::UndefinedColor));
    assert_eq!(CubeColor::new("re"), Err(CubeError::UndefinedColor));
    assert_eq!(CubeColor::new("reds"), Err(CubeError::UndefinedColor));
    assert_eq!(CubeColor::new(" red"), Err(CubeError::UndefinedColor));
    assert_eq!(CubeColor::new(""), Err(CubeError::UndefinedColor));
}

#[test]
fn cube_lists_are_read_in_order() {
    assert_eq!(
        Cubes::new(" 3 blue, 4 red,1 green "),
        Ok(vec![
            Cubes { count: 3, color: CubeColor::Blue },
            Cubes { count: 4, color: CubeColor::Red },
            Cubes { count: 1, color: CubeColor::Green },
        ])
    );
    assert_eq!(
        Cubes::new("\t+5 red\u{a0}"),
        Ok(vec![Cubes { count: 5, color: CubeColor::Red }])
    );
    assert_eq!(Cubes::new("0 red"), Ok(vec![Cubes { count: 0, color: CubeColor::Red }]));
}

#[test]
fn cube_list_errors() {
    assert_eq!(Cubes::new(""), Err(CubeError::InvalidCount));
    assert_eq!(Cubes::new("red 3"), Err(CubeError::InvalidCount));
    assert_eq!(Cubes::new("three red"), Err(CubeError::InvalidCount));
    assert_eq!(Cubes::new("-3 red"), Err(CubeError::InvalidCount));
    assert_eq!(Cubes::new("+ red"), Err(CubeError::InvalidCount));
    assert_eq!(Cubes::new("3_0 red"), Err(CubeError::InvalidCount));
    assert_eq!(
        Cubes::new("99999999999999999999999999 red"),
        Err(CubeError::InvalidCount)
    );
    assert_eq!(Cubes::new("3"), Err(CubeError::MissingColor));
    assert_eq!(Cubes::new("3 "), Err(CubeError::MissingColor));
    assert_eq!(Cubes::new("3 purple"), Err(CubeError::UndefinedColor));
    assert_eq!(Cubes::new("3  red"), Err(CubeError::UndefinedColor));
    assert_eq!(Cubes::new("3\tred"), Err(CubeError::InvalidCount));
}

#[test]
fn first_bad_cube_count_gives_the_error() {
    assert_eq!(Cubes::new("1 red, 2, x blue"), Err(CubeError::MissingColor));
    assert_eq!(Cubes::new("1 red, x blue, 2"), Err(CubeError::InvalidCount));
    assert_eq!(Cubes::new("1 pink, x blue, 2"), Err(CubeError::UndefinedColor));
    assert_eq!(Cubes::new("1 red, 2 blue,"), Err(CubeError::InvalidCount));
}

#[test]
fn sets_are_parted_by_semicolons() {
    let sets = CubeSet::new("3 blue, 4 red; 1 red, 2 green, 6 blue; 2 green").expect("sets");
    assert_eq!(sets.len(), 3);
    assert_eq!(
        sets[0].cubes(),
        &vec![
            Cubes { count: 3, color: CubeColor::Blue },
            Cubes { count: 4, color: CubeColor::Red },
        ]
    );
    assert_eq!(sets[1].cubes().len(), 3);
    assert_eq!(sets[2].cubes(), &vec![Cubes { count: 2, color: CubeColor::Green }]);
    assert_eq!(CubeSet::new("3 blue; 4").err(), Some(CubeError::MissingColor));
    assert_eq!(CubeSet::new("3 blue; 4 red;").err(), Some(CubeError::InvalidCount));
    assert_eq!(CubeSet::new("3 teal; x").err(), Some(CubeError::UndefinedColor));
}

#[test]
fn colour_counts_of_a_set() {
    let sets = CubeSet::new("1 red, 2 blue, 3 red; 7 green").expect("sets");
    assert_eq!(sets[0].cube_color_count(CubeColor::Red), 4);
    assert_eq!(sets[0].cube_color_count(CubeColor::Blue), 2);
    assert_eq!(sets[0].cube_color_count(CubeColor::Green), 0);
    assert_eq!(sets[1].cube_color_count(CubeColor::Green), 7);
    assert_eq!(sets[0].checked_cube_color_count(CubeColor::Red), Some(4));
    let sets = CubeSet::new(&format!("{} red, 1 red, 1 blue", usize::MAX)).expect("sets");
    assert_eq!(sets[0].checked_cube_color_count(CubeColor::Red), None);
    assert_eq!(sets[0].checked_cube_color_count(CubeColor::Blue), Some(1));
}

#[test]
fn file_name_is_given_back() {
    let args = Args::new(Some("puzzle.txt".to_string()));
    assert_eq!(args.file_name(), Some("puzzle.txt"));
    assert_eq!(args.input_path(), "puzzle.txt");
}

#[test]
fn missing_file_name_falls_back_to_input() {
    let args = Args::new(None);
    assert_eq!(args.file_name(), None);
    assert_eq!(args.input_path(), "input");
}

#[test]
fn numbers_are_written_in_decimal() {
    assert_eq!(number_text(0), "0");
    assert_eq!(number_text(7), "7");
    assert_eq!(number_text(10), "10");
    assert_eq!(number_text(1337), "1337");
    assert_eq!(number_text(usize::MAX), usize::MAX.to_string());
    for n in [0usize, 9, 10, 99, 100, 101, 12345, 1_000_000_007] {
        assert_eq!(number_text(n), n.to_string());
    }
}

#[test]
fn colours_are_written_with_a_capital() {
    assert_eq!(CubeColor::Red.label(), "Red");
    assert_eq!(CubeColor::Green.label(), "Green");
    assert_eq!(CubeColor::Blue.label(), "Blue");
}

#[test]
fn cube_counts_are_written_out() {
    assert_eq!(Cubes { count: 3, color: CubeColor::Blue }.to_text(), "3 Blue");
    assert_eq!(Cubes { count: 0, color: CubeColor::Red }.to_text(), "0 Red");
    assert_eq!(Cubes { count: 420, color: CubeColor::Green }.to_text(), "420 Green");
}

#[test]
fn sets_are_written_out() {
    let sets = CubeSet::new("3 blue, 4 red; 2 green").expect("sets");
    assert_eq!(sets[0].to_text(), "3 Blue, 4 Red, ; ");
    assert_eq!(sets[1].to_text(), "2 Green, ; ");
}

#[test]
fn games_are_written_out() {
    let game = Game::new("Game 7: 3 blue, 4 red; 1 red, 2 green").expect("a game");
    assert_eq!(
        game.to_text(),
        "Game 7: 3 Blue, 4 Red, ; 1 Red, 2 Green, ; \n\tHigh Red:4,\n\tHigh Green:2,\n\tHigh Blue:3\n"
    );
    let game = Game::new("Game 1010: 1337 red").expect("a game");
    assert_eq!(
        game.to_text(),
        "Game 1010: 1337 Red, ; \n\tHigh Red:1337,\n\tHigh Green:0,\n\tHigh Blue:0\n"
    );
}
