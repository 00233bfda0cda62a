use showdown_hunter::draw::{standard_names, BasicPokemon, PokemonDraw};

fn basic(name: &str, standing: &str) -> BasicPokemon {
    BasicPokemon { name: name.to_string(), is_non_standard: standing.to_string() }
}

fn standard(names: &[&str]) -> Vec<BasicPokemon> {
    names.iter().map(|n| basic(n, "Standard")).collect()
}

#[test]
fn only_standard_pokemon_are_drawn_from() {
    let list = vec![
        basic("Great Tusk", "Standard"),
        basic("Pikachu-Starter", "LGPE"),
        basic("Charizard-Mega-X", "Standard"),
        basic("Missingno", "Unobtainable"),
    ];
    assert_eq!(standard_names(&list), vec!["Great Tusk", "Charizard-Mega-X"]);
    assert!(standard_names(&vec![]).is_empty());
    let draw: PokemonDraw<u8> = PokemonDraw::new(1, &list);
    assert_eq!(draw.pool_size(), 2);
    assert_eq!(draw.candidate(1), Some("charizard-x".to_string()));
}

#[test]
fn a_candidate_is_the_dex_name() {
    let draw: PokemonDraw<u8> = PokemonDraw::new(2, &standard(&["Charizard-Mega-X", "Iron Moth"]));
    assert_eq!(draw.candidate(0), Some("charizard-x".to_string()));
    assert_eq!(draw.candidate(1), Some("iron-moth".to_string()));
}

#[test]
fn a_drawn_pokemon_is_not_drawn_again() {
    let mut draw: PokemonDraw<u8> = PokemonDraw::new(3, &standard(&["Iron Moth"]));
    draw.take(0, vec![vec![1, 2]], 0, 1);
    assert_eq!(draw.candidate(0), None);
    assert_eq!(draw.draw_candidate(), (0, None));
}

#[test]
fn a_random_candidate_comes_from_the_pool() {
    let draw: PokemonDraw<u8> = PokemonDraw::new(1, &standard(&["Kingambit"]));
    assert_eq!(draw.draw_candidate(), (0, Some("kingambit".to_string())));
    let many: PokemonDraw<u8> = PokemonDraw::new(1, &standard(&["A", "B", "C"]));
    for _ in 0..50 {
        let (i, c) = many.draw_candidate();
        assert!(i < 3);
        assert_eq!(c.unwrap(), ["a", "b", "c"][i]);
    }
}

#[test]
fn nothing_is_kept_without_move_sets() {
    let mut draw: PokemonDraw<u8> = PokemonDraw::new(1, &standard(&["A"]));
    draw.accept(0, None);
    draw.accept(0, Some(vec![]));
    draw.accept(0, Some(vec![vec![], vec![]]));
    draw.take(0, vec![vec![], vec![5]], 0, 9);
    assert!(!draw.is_done());
    assert!(draw.into_sets().is_empty());
}

#[test]
fn a_set_of_a_strategy_is_kept() {
    let mut draw: PokemonDraw<u8> = PokemonDraw::new(1, &standard(&["A"]));
    draw.accept(0, Some(vec![vec![7, 8, 9]]));
    assert!(draw.is_done());
    assert_eq!(draw.candidate(0), None);
    let sets = draw.into_sets();
    assert_eq!(sets.len(), 1);
    assert!([7, 8, 9].contains(&sets[0]));
}

#[test]
fn the_chosen_strategy_and_set_are_kept() {
    let mut draw: PokemonDraw<u8> = PokemonDraw::new(2, &standard(&["A", "B"]));
    draw.take(1, vec![vec![1, 2], vec![3, 4, 5]], 1, 2);
    assert_eq!(draw.candidate(1), None);
    assert_eq!(draw.candidate(0), Some("a".to_string()));
    assert_eq!(draw.into_sets(), vec![5]);
}

#[test]
fn a_draw_finishes_with_one_set_per_pokemon() {
    let mut draw: PokemonDraw<u8> = PokemonDraw::new(3, &standard(&["A", "B", "C"]));
    assert!(!draw.is_done());
    draw.take(0, vec![vec![1]], 0, 0);
    draw.take(2, vec![vec![2, 3]], 0, 1);
    assert!(!draw.is_done());
    draw.take(1, vec![vec![4]], 0, 0);
    assert!(draw.is_done());
    assert_eq!(draw.into_sets(), vec![1, 3, 4]);
}

#[test]
fn a_full_draw_holds_distinct_standard_pokemon() {
    let list = vec![
        basic("A", "Standard"),
        basic("B", "Past"),
        basic("C", "Standard"),
        basic("D", "Standard"),
    ];
    let mut draw: PokemonDraw<usize> = PokemonDraw::new(3, &list);
    let mut names = Vec::new();
    while !draw.is_done() {
        let (i, c) = draw.draw_candidate();
        if let Some(name) = c {
            names.push(name);
            draw.accept(i, Some(vec![vec![names.len()]]));
        }
    }
    names.sort();
    assert_eq!(names, vec!["a", "c", "d"]);
    assert_eq!(draw.into_sets(), vec![1, 2, 3]);
}

#[test]
fn an_empty_draw_is_done() {
    let draw: PokemonDraw<u8> = PokemonDraw::new(0, &vec![]);
    assert!(draw.is_done());
}
