use lgp_evolve::chromosomes::{Instruction, Modes};
use lgp_evolve::display::parse_program;
use lgp_evolve::program::{FitnessScore, Program};
use lgp_evolve::registers::{RegisterValue, Registers};

fn sample_program() -> Program {
    Program {
        instructions: vec![
            Instruction { source_index: 0, target_index: 2, mode: Modes::Registers, operation: 1 },
            Instruction { source_index: 3, target_index: 5, mode: Modes::Input, operation: 0 },
        ],
        registers: Registers::from(vec![
            RegisterValue { key: 5 },
            RegisterValue { key: 1234567890123 },
        ]),
        fitness: Some(FitnessScore { key: 42 }),
    }
}

#[test]
fn displayed_form_is_the_expected_text() {
    let program = Program {
        instructions: vec![Instruction {
            source_index: 0,
            target_index: 2,
            mode: Modes::Registers,
            operation: 1,
        }],
        registers: Registers::from(vec![RegisterValue { key: 5 }]),
        fitness: None,
    };
    let text = program.to_text();
    assert_eq!(text, b"I 0 2 R 1\nC 5\nF N\n".to_vec());
}

#[test]
fn displayed_form_round_trips() {
    let program = sample_program();
    let text = program.to_text();
    let parsed = parse_program(&text).unwrap();
    assert_eq!(parsed.instructions, program.instructions);
    assert_eq!(parsed.fitness, program.fitness);
    assert_eq!(parsed.registers.len(), program.registers.len());
    for i in 0..program.registers.len() {
        assert_eq!(parsed.registers.get(i).unwrap(), program.registers.get(i).unwrap());
    }
}

#[test]
fn displayed_form_round_trips_without_fitness() {
    let mut program = sample_program();
    program.fitness = None;
    let text = program.to_text();
    let parsed = parse_program(&text).unwrap();
    assert_eq!(parsed.instructions, program.instructions);
    assert_eq!(parsed.fitness, None);
}

#[test]
fn empty_program_round_trips() {
    let program = Program {
        instructions: Vec::new(),
        registers: Registers::from(Vec::new()),
        fitness: None,
    };
    let text = program.to_text();
    assert_eq!(text, b"F N\n".to_vec());
    let parsed = parse_program(&text).unwrap();
    assert!(parsed.instructions.is_empty());
    assert_eq!(parsed.registers.len(), 0);
    assert_eq!(parsed.fitness, None);
}

#[test]
fn large_keys_round_trip() {
    let program = Program {
        instructions: Vec::new(),
        registers: Registers::from(vec![RegisterValue { key: u64::MAX }]),
        fitness: Some(FitnessScore { key: u64::MAX }),
    };
    let text = program.to_text();
    let parsed = parse_program(&text).unwrap();
    assert_eq!(parsed.fitness.unwrap().key, u64::MAX);
    assert_eq!(parsed.registers.get(0).unwrap().key, u64::MAX);
}

#[test]
fn malformed_text_is_rejected() {
    assert!(parse_program(b"").is_none());
    assert!(parse_program(b"F N").is_none());
    assert!(parse_program(b"I 0 2 R 1\n").is_none());
    assert!(parse_program(b"I 0 2 X 1\nF N\n").is_none());
    assert!(parse_program(b"F N\nextra").is_none());
    assert!(parse_program(b"F 18446744073709551616\n").is_none());
}
