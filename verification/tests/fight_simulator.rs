use artifactsmmo_semi_auto_bot::sdk::fight_simulator::{FightResult, FightSimulator};

#[test]
fn gather() {
    let simulator = FightSimulator::new();

    assert_eq!(simulator.gather(17, 1, -10,), 21);
}

#[test]
fn gather_rounds_halves_away_from_zero() {
    let simulator = FightSimulator::new();
    // 25 - 0.5 = 24.5
    assert_eq!(simulator.gather(6, 1, 0), 25);
    assert_eq!(simulator.gather(1, 1, 0), 25);
    assert_eq!(simulator.gather(11, 1, 0), 24);
    assert_eq!(simulator.gather(1, 1, -100), 0);
    assert_eq!(simulator.gather(1, 1, -300), -50);
}

#[test]
fn simulate_win_and_loss() {
    let simulator = FightSimulator::new();
    // 115 + 5 * 1 = 120 hp, the monster has 60 hp and takes 20 a strike.
    let fight = simulator.simulate(1, 0, 0, 60, 20, 10, 0);
    assert_eq!(fight.turns, 5);
    assert_eq!(fight.hp_left, 100);
    assert_eq!(fight.result, FightResult::Win);
    assert_eq!(fight.cd, 10);
    // The character falls first.
    let fight = simulator.simulate(1, 100, 0, 1000, 1, 15, 50);
    assert_eq!(fight.turns, 4);
    assert_eq!(fight.hp_left, -10);
    assert_eq!(fight.result, FightResult::Loss);
    assert_eq!(fight.cd, 4);
    // Nobody falls within 100 turns.
    let fight = simulator.simulate(1, 0, 0, 1000, 1, 1, 10);
    assert_eq!(fight.turns, 101);
    assert_eq!(fight.hp_left, 70);
    assert_eq!(fight.result, FightResult::Win);
    assert_eq!(fight.cd, 182);
}
