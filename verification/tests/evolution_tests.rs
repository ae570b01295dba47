use rand::SeedableRng;

use lgp_evolve::algorithm::{apply_selection, breed, evaluate, init_population, rank, Gap,
    HyperParameters};
use lgp_evolve::chromosomes::{Instruction, Modes};
use lgp_evolve::errors::EvolveError;
use lgp_evolve::population::Population;
use lgp_evolve::program::{FitnessScore, GenerateParams, Program};
use lgp_evolve::registers::{InputRecord, RegisterValue, Registers};

fn rng_with(seed: u64) -> rand::rngs::StdRng {
    rand::rngs::StdRng::seed_from_u64(seed)
}

fn program_with_fitness(key: u64) -> Program {
    Program {
        instructions: vec![Instruction {
            source_index: 0,
            target_index: 0,
            mode: Modes::Registers,
            operation: 0,
        }],
        registers: Registers::new(2),
        fitness: Some(FitnessScore { key }),
    }
}

fn fitness_keys(population: &Population) -> Vec<u64> {
    population
        .get_pop()
        .iter()
        .map(|p| p.fitness.as_ref().unwrap().key)
        .collect()
}

#[test]
fn generate_respects_every_bound() {
    let mut rng = rng_with(7);
    for _ in 0..200 {
        let instruction = Instruction::generate(4, 6, 3, &mut rng).unwrap();
        assert!(instruction.source_index < 4);
        match instruction.mode {
            Modes::Registers => assert!(instruction.target_index < 4),
            Modes::Input => assert!(instruction.target_index < 6),
        }
        assert!(instruction.operation < 3);
    }
}

#[test]
fn generate_rejects_empty_extents() {
    let mut rng = rng_with(1);
    assert_eq!(
        Instruction::generate(0, 5, 2, &mut rng),
        Err(EvolveError::InvalidConfiguration)
    );
    assert_eq!(
        Instruction::generate(5, 0, 2, &mut rng),
        Err(EvolveError::InvalidConfiguration)
    );
    assert_eq!(
        Instruction::generate(5, 5, 0, &mut rng),
        Err(EvolveError::InvalidConfiguration)
    );
}

#[test]
fn get_data_resolves_both_banks() {
    let registers = Registers::from(vec![
        RegisterValue { key: 11 },
        RegisterValue { key: 22 },
    ]);
    let record = InputRecord {
        features: vec![RegisterValue { key: 77 }, RegisterValue { key: 88 }],
        class: 0,
    };
    let from_registers = Instruction {
        source_index: 0,
        target_index: 1,
        mode: Modes::Registers,
        operation: 0,
    };
    let (source, target) = from_registers.get_data(&registers, &record).unwrap();
    assert_eq!(source, vec![RegisterValue { key: 11 }]);
    assert_eq!(target, vec![RegisterValue { key: 22 }]);
    let from_input = Instruction {
        source_index: 1,
        target_index: 0,
        mode: Modes::Input,
        operation: 0,
    };
    let (source, target) = from_input.get_data(&registers, &record).unwrap();
    assert_eq!(source, vec![RegisterValue { key: 22 }]);
    assert_eq!(target, vec![RegisterValue { key: 77 }]);
}

#[test]
fn mode_of_maps_the_drawn_flag() {
    assert_eq!(lgp_evolve::chromosomes::mode_of(true), Modes::Input);
    assert_eq!(lgp_evolve::chromosomes::mode_of(false), Modes::Registers);
}

#[test]
fn output_index_is_the_target_cell_in_register_mode() {
    let register_addressed = Instruction {
        source_index: 1,
        target_index: 2,
        mode: Modes::Registers,
        operation: 0,
    };
    assert_eq!(register_addressed.output_index(), 2);
    let input_addressed = Instruction {
        source_index: 1,
        target_index: 2,
        mode: Modes::Input,
        operation: 0,
    };
    assert_eq!(input_addressed.output_index(), 1);
}

#[test]
fn get_data_rejects_out_of_bounds_targets() {
    let registers = Registers::from(vec![RegisterValue { key: 1 }]);
    let record = InputRecord { features: vec![RegisterValue { key: 2 }], class: 0 };
    let bad = Instruction {
        source_index: 0,
        target_index: 3,
        mode: Modes::Input,
        operation: 0,
    };
    assert!(matches!(
        bad.get_data(&registers, &record),
        Err(EvolveError::OutOfBounds { .. })
    ));
}

#[test]
fn push_beyond_capacity_is_rejected() {
    let mut population = Population::new(1);
    population.push(program_with_fitness(1)).unwrap();
    let overflow = population.push(program_with_fitness(2));
    assert_eq!(overflow, Err(EvolveError::CapacityExceeded { capacity: 1 }));
    assert_eq!(population.len(), 1);
}

#[test]
fn sort_without_fitness_fails_explicitly() {
    let mut population = Population::new(4);
    population.push(program_with_fitness(3)).unwrap();
    let mut unevaluated = program_with_fitness(0);
    unevaluated.fitness = None;
    population.push(unevaluated).unwrap();
    assert_eq!(population.sort(), Err(EvolveError::FitnessNotEvaluated));
    assert_eq!(rank(&mut population), Err(EvolveError::FitnessNotEvaluated));
}

#[test]
fn sort_orders_ascending_by_fitness() {
    let mut population = Population::new(6);
    for key in [5u64, 1, 4, 2, 3] {
        population.push(program_with_fitness(key)).unwrap();
    }
    population.sort().unwrap();
    assert_eq!(fitness_keys(&population), vec![1, 2, 3, 4, 5]);
    assert_eq!(population.first().unwrap().fitness.unwrap().key, 1);
    assert_eq!(population.last().unwrap().fitness.unwrap().key, 5);
}

#[test]
fn pops_take_worst_and_best() {
    let mut population = Population::new(4);
    for key in [2u64, 1, 3] {
        population.push(program_with_fitness(key)).unwrap();
    }
    population.sort().unwrap();
    let worst = population.f_pop().unwrap();
    assert_eq!(worst.fitness.unwrap().key, 1);
    let best = population.pop_back().unwrap();
    assert_eq!(best.fitness.unwrap().key, 3);
    assert_eq!(population.len(), 1);
}

#[test]
fn ranking_twice_keeps_the_order() {
    let mut population = Population::new(8);
    for key in [4u64, 4, 7, 1, 9, 1] {
        population.push(program_with_fitness(key)).unwrap();
    }
    rank(&mut population).unwrap();
    let first_order = fitness_keys(&population);
    rank(&mut population).unwrap();
    assert_eq!(fitness_keys(&population), first_order);
}

#[test]
fn selection_removes_the_lowest_half() {
    let mut population = Population::new(10);
    for key in 1..=10u64 {
        population.push(program_with_fitness(key)).unwrap();
    }
    rank(&mut population).unwrap();
    apply_selection(&mut population, Gap { num: 1, den: 2 }).unwrap();
    assert_eq!(fitness_keys(&population), vec![6, 7, 8, 9, 10]);
}

#[test]
fn selection_with_gap_one_removes_none() {
    let mut population = Population::new(4);
    for key in 1..=4u64 {
        population.push(program_with_fitness(key)).unwrap();
    }
    rank(&mut population).unwrap();
    apply_selection(&mut population, Gap { num: 1, den: 1 }).unwrap();
    assert_eq!(fitness_keys(&population), vec![1, 2, 3, 4]);
}

#[test]
fn selection_rejects_a_gap_outside_the_unit_interval() {
    let mut population = Population::new(2);
    population.push(program_with_fitness(1)).unwrap();
    assert_eq!(
        apply_selection(&mut population, Gap { num: 3, den: 2 }),
        Err(EvolveError::InvalidConfiguration)
    );
    assert_eq!(
        apply_selection(&mut population, Gap { num: 0, den: 0 }),
        Err(EvolveError::InvalidConfiguration)
    );
    assert_eq!(population.len(), 1);
}

#[test]
fn breed_refills_with_distinct_survivors() {
    let mut population = Population::new(10);
    for key in 1..=10u64 {
        population.push(program_with_fitness(key)).unwrap();
    }
    rank(&mut population).unwrap();
    apply_selection(&mut population, Gap { num: 1, den: 2 }).unwrap();
    assert_eq!(population.len(), 5);
    let survivor_keys = fitness_keys(&population);
    let mut rng = rng_with(11);
    breed(&mut population, &mut rng);
    assert_eq!(population.len(), 10);
    let keys = fitness_keys(&population);
    assert_eq!(&keys[..5], &survivor_keys[..]);
    // the refill drew every survivor exactly once: no duplicate draw
    let mut added: Vec<u64> = keys[5..].to_vec();
    added.sort();
    assert_eq!(added, vec![6, 7, 8, 9, 10]);
}

#[test]
fn evaluate_caches_lazily_and_keeps_cached_scores() {
    let mut population = Population::new(3);
    population.push(program_with_fitness(42)).unwrap();
    let mut fresh = program_with_fitness(0);
    fresh.fitness = None;
    population.push(fresh).unwrap();
    let scores = vec![FitnessScore { key: 7 }, FitnessScore { key: 8 }];
    evaluate(&mut population, &scores);
    assert_eq!(fitness_keys(&population), vec![42, 8]);
}

#[test]
fn lazy_retrieve_fitness_computes_once() {
    let mut program = program_with_fitness(0);
    program.fitness = None;
    let first = program.lazy_retrieve_fitness(FitnessScore { key: 5 });
    assert_eq!(first.key, 5);
    let second = program.lazy_retrieve_fitness(FitnessScore { key: 9 });
    assert_eq!(second.key, 5);
    assert_eq!(program.fitness.unwrap().key, 5);
}

#[test]
fn init_population_builds_fresh_programs() {
    let hyper_params = HyperParameters {
        population_size: 6,
        max_program_size: 4,
        gap: Gap { num: 1, den: 2 },
        max_generations: 3,
        n_operations: 2,
    };
    let params = GenerateParams {
        registers_len: 3,
        data_len: 5,
        n_operations: 2,
        max_instructions: 4,
    };
    let mut rng = rng_with(3);
    let population = init_population(&hyper_params, params, &mut rng).unwrap();
    assert_eq!(population.capacity(), 6);
    assert_eq!(population.len(), 6);
    for program in population.get_pop() {
        assert!(program.fitness.is_none());
        assert!(!program.instructions.is_empty());
        assert!(program.instructions.len() <= 4);
        assert_eq!(program.registers.len(), 3);
        for instruction in &program.instructions {
            assert!(instruction.source_index < 3);
            assert!(instruction.operation < 2);
        }
    }
}

#[test]
fn init_population_rejects_a_zero_size() {
    let hyper_params = HyperParameters {
        population_size: 0,
        max_program_size: 4,
        gap: Gap { num: 1, den: 2 },
        max_generations: 3,
        n_operations: 2,
    };
    let params = GenerateParams {
        registers_len: 3,
        data_len: 5,
        n_operations: 2,
        max_instructions: 4,
    };
    let mut rng = rng_with(3);
    assert!(matches!(
        init_population(&hyper_params, params, &mut rng),
        Err(EvolveError::InvalidConfiguration)
    ));
}

#[test]
fn program_generate_rejects_invalid_parameters() {
    let mut rng = rng_with(2);
    let bad = GenerateParams {
        registers_len: 0,
        data_len: 5,
        n_operations: 2,
        max_instructions: 4,
    };
    assert!(matches!(
        Program::generate(bad, &mut rng),
        Err(EvolveError::InvalidConfiguration)
    ));
}

#[test]
fn comparing_programs_goes_by_cached_fitness() {
    let low = program_with_fitness(3);
    let high = program_with_fitness(8);
    assert_eq!(low.compare_fitness(&high), Ok(std::cmp::Ordering::Less));
    assert_eq!(high.compare_fitness(&low), Ok(std::cmp::Ordering::Greater));
    assert_eq!(high.compare_fitness(&high), Ok(std::cmp::Ordering::Equal));
}

#[test]
fn comparing_without_fitness_fails_explicitly() {
    let mut unevaluated = program_with_fitness(0);
    unevaluated.fitness = None;
    let evaluated = program_with_fitness(4);
    assert_eq!(
        unevaluated.compare_fitness(&evaluated),
        Err(EvolveError::FitnessNotEvaluated)
    );
    assert_eq!(
        evaluated.compare_fitness(&unevaluated),
        Err(EvolveError::FitnessNotEvaluated)
    );
}

#[test]
fn deep_clone_is_value_equal() {
    let program = program_with_fitness(9);
    let copy = program.deep_clone();
    assert_eq!(copy.instructions, program.instructions);
    assert_eq!(copy.fitness, program.fitness);
    assert_eq!(copy.registers.len(), program.registers.len());
    for i in 0..program.registers.len() {
        assert_eq!(copy.registers.get(i).unwrap(), program.registers.get(i).unwrap());
    }
}
