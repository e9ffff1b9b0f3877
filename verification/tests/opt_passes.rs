use atlas_sphere::mir_opt::{
    contains_pattern, Availability, ConditionalFoldingPass, EdgeFact, ExprKey, Literal, MirBlock, MirFunction, MirRhs, MirStatement,
    MirModule, MirTerminator, MirValue, MorelRenvoisePrePass, PreBlock,
};

fn ret_block() -> MirBlock {
    MirBlock { statements: vec![], term: Some(MirTerminator::Return(None)) }
}

#[test]
fn fold_constant_branch() {
    let mut func = MirFunction {
        blocks: vec![
            MirBlock {
                statements: vec![MirStatement { target: MirValue(0), rhs: MirRhs::Literal(Literal::Integer(1)) }],
                term: Some(MirTerminator::Branch { cond: MirValue(0), true_bb: 1, false_bb: 2 }),
            },
            ret_block(),
            ret_block(),
        ],
    };
    let pass = ConditionalFoldingPass::new();
    let result = pass.run(&mut func);
    assert!(result.changed);
    assert!(matches!(func.blocks[0].term, Some(MirTerminator::Goto(1))));
}

#[test]
fn zero_condition_folds_to_the_false_side() {
    let mut func = MirFunction {
        blocks: vec![
            MirBlock {
                statements: vec![MirStatement { target: MirValue(3), rhs: MirRhs::Literal(Literal::Integer(0)) }],
                term: Some(MirTerminator::Branch { cond: MirValue(3), true_bb: 1, false_bb: 2 }),
            },
            ret_block(),
            ret_block(),
        ],
    };
    let result = ConditionalFoldingPass::new().run(&mut func);
    assert!(result.changed);
    assert_eq!(result.count, 0);
    assert_eq!(func.blocks[0].term, Some(MirTerminator::Goto(2)));
}

#[test]
fn edge_facts_decide_a_repeated_branch_in_the_successor() {
    // Block 0 sets v0 = 5 and branches on it; block 1 branches on v0 again.
    // The edge 0 -> 1 carries "v0 == 1", so block 1's branch folds to its true side.
    let mut func = MirFunction {
        blocks: vec![
            MirBlock {
                statements: vec![MirStatement { target: MirValue(0), rhs: MirRhs::Literal(Literal::Integer(5)) }],
                term: Some(MirTerminator::Branch { cond: MirValue(0), true_bb: 1, false_bb: 2 }),
            },
            MirBlock { statements: vec![], term: Some(MirTerminator::Branch { cond: MirValue(0), true_bb: 3, false_bb: 2 }) },
            ret_block(),
            ret_block(),
        ],
    };
    let result = ConditionalFoldingPass::new().run(&mut func);
    assert!(result.changed);
    assert_eq!(func.blocks[0].term, Some(MirTerminator::Branch { cond: MirValue(0), true_bb: 1, false_bb: 2 }));
    assert_eq!(func.blocks[1].term, Some(MirTerminator::Goto(3)));
}

#[test]
fn unknown_conditions_and_unreachable_blocks_stay() {
    let mut func = MirFunction {
        blocks: vec![
            MirBlock { statements: vec![MirStatement { target: MirValue(0), rhs: MirRhs::Computed }], term: Some(MirTerminator::Branch { cond: MirValue(0), true_bb: 1, false_bb: 1 }) },
            ret_block(),
            // Unreachable, and without a constant of its own: nothing decides its branch.
            MirBlock { statements: vec![], term: Some(MirTerminator::Branch { cond: MirValue(9), true_bb: 1, false_bb: 1 }) },
        ],
    };
    let result = ConditionalFoldingPass::new().run(&mut func);
    assert!(!result.changed);
    assert_eq!(func.blocks[2].term, Some(MirTerminator::Branch { cond: MirValue(9), true_bb: 1, false_bb: 1 }));
}

#[test]
fn find_cond_value_takes_the_last_integer_assignment() {
    let block = MirBlock {
        statements: vec![
            MirStatement { target: MirValue(1), rhs: MirRhs::Literal(Literal::Integer(4)) },
            MirStatement { target: MirValue(1), rhs: MirRhs::Literal(Literal::Integer(9)) },
            MirStatement { target: MirValue(1), rhs: MirRhs::Computed },
            MirStatement { target: MirValue(2), rhs: MirRhs::Literal(Literal::Integer(7)) },
        ],
        term: None,
    };
    assert_eq!(ConditionalFoldingPass::find_cond_value(&block, MirValue(1)), Some(9));
    assert_eq!(ConditionalFoldingPass::find_cond_value(&block, MirValue(5)), None);
}

#[test]
fn infer_edge_facts_marks_both_edges() {
    let func = MirFunction {
        blocks: vec![
            MirBlock {
                statements: vec![MirStatement { target: MirValue(0), rhs: MirRhs::Literal(Literal::Integer(2)) }],
                term: Some(MirTerminator::Branch { cond: MirValue(0), true_bb: 1, false_bb: 2 }),
            },
            ret_block(),
            ret_block(),
        ],
    };
    let edges = ConditionalFoldingPass::infer_edge_facts(&func);
    assert_eq!(edges, vec![(0, 1, EdgeFact::EqVarConst(0, 1)), (0, 2, EdgeFact::EqVarConst(0, 0))]);
}

#[test]
fn pre_morel_exists() {
    let pass = MorelRenvoisePrePass::new();
    assert_eq!(pass.name(), "morel_renvoise_pre");
    assert_eq!(pass.max_iterations(), 128);
    assert_eq!(ConditionalFoldingPass::new().name(), "conditional_folding");
}

#[test]
fn availability_meet_is_a_semilattice() {
    let all = [Availability::Unknown, Availability::Available, Availability::Overdefined];
    for a in all {
        assert_eq!(a.meet(Availability::Unknown), a);
        for b in all {
            assert_eq!(a.meet(b), b.meet(a));
            for c in all {
                assert_eq!(a.meet(b).meet(c), a.meet(b.meet(c)));
            }
        }
    }
    assert_eq!(Availability::Available.meet(Availability::Available), Availability::Available);
    assert_eq!(Availability::Available.meet(Availability::Overdefined), Availability::Overdefined);
}

#[test]
fn calls_are_not_pure() {
    let add = ExprKey { opcode: "Add".to_string(), operands: vec!["a".to_string(), "b".to_string()] };
    assert!(add.is_pure());
    let call = ExprKey { opcode: "indirect_call".to_string(), operands: vec![] };
    assert!(!call.is_pure());
    assert!(contains_pattern(&vec!['x', 'c', 'a', 'l', 'l'], &vec!['c', 'a', 'l', 'l']));
    assert!(!contains_pattern(&vec!['c', 'a', 'l'], &vec!['c', 'a', 'l', 'l']));
}

#[test]
fn merge_block_keeps_a_fact_carried_by_one_path_only() {
    // Block 0 sets v0 = 5 and branches: true to block 1, false to block 2.
    // Block 1 jumps to block 2, so block 2 is reached both with v0 == 1 and v0 == 0.
    let mut func = MirFunction {
        blocks: vec![
            MirBlock {
                statements: vec![MirStatement { target: MirValue(0), rhs: MirRhs::Literal(Literal::Integer(5)) }],
                term: Some(MirTerminator::Branch { cond: MirValue(0), true_bb: 1, false_bb: 2 }),
            },
            MirBlock { statements: vec![], term: Some(MirTerminator::Goto(2)) },
            MirBlock { statements: vec![], term: Some(MirTerminator::Branch { cond: MirValue(0), true_bb: 3, false_bb: 4 }) },
            ret_block(),
            ret_block(),
        ],
    };
    let result = ConditionalFoldingPass::new().run(&mut func);
    assert!(!result.changed);
    assert_eq!(func.blocks[2].term, Some(MirTerminator::Branch { cond: MirValue(0), true_bb: 3, false_bb: 4 }));
}

#[test]
fn facts_flow_down_a_chain_of_single_predecessors() {
    // 0 -(v0 == 1)-> 1 -> 3, and block 3 branches on v0 again.
    let mut func = MirFunction {
        blocks: vec![
            MirBlock {
                statements: vec![MirStatement { target: MirValue(0), rhs: MirRhs::Literal(Literal::Integer(5)) }],
                term: Some(MirTerminator::Branch { cond: MirValue(0), true_bb: 1, false_bb: 2 }),
            },
            MirBlock { statements: vec![], term: Some(MirTerminator::Goto(3)) },
            ret_block(),
            MirBlock { statements: vec![], term: Some(MirTerminator::Branch { cond: MirValue(0), true_bb: 4, false_bb: 2 }) },
            ret_block(),
        ],
    };
    let result = ConditionalFoldingPass::new().run(&mut func);
    assert!(result.changed);
    assert_eq!(func.blocks[3].term, Some(MirTerminator::Goto(4)));
}

#[test]
fn merge_block_keeps_facts_every_edge_carries() {
    // Blocks 1 and 2 each set v7 and branch on it, true side to block 3, so
    // both edges into block 3 carry v7 == 1.
    let mut func = MirFunction {
        blocks: vec![
            MirBlock {
                statements: vec![MirStatement { target: MirValue(7), rhs: MirRhs::Literal(Literal::Integer(1)) }],
                term: Some(MirTerminator::Branch { cond: MirValue(7), true_bb: 1, false_bb: 2 }),
            },
            MirBlock {
                statements: vec![MirStatement { target: MirValue(7), rhs: MirRhs::Literal(Literal::Integer(9)) }],
                term: Some(MirTerminator::Branch { cond: MirValue(7), true_bb: 3, false_bb: 5 }),
            },
            MirBlock {
                statements: vec![MirStatement { target: MirValue(7), rhs: MirRhs::Literal(Literal::Integer(9)) }],
                term: Some(MirTerminator::Branch { cond: MirValue(7), true_bb: 3, false_bb: 5 }),
            },
            MirBlock { statements: vec![], term: Some(MirTerminator::Branch { cond: MirValue(7), true_bb: 4, false_bb: 5 }) },
            ret_block(),
            ret_block(),
        ],
    };
    let result = ConditionalFoldingPass::new().run(&mut func);
    assert!(result.changed);
    // block 3 has predecessors 1 and 2, and both edges carry v7 == 1
    assert_eq!(func.blocks[3].term, Some(MirTerminator::Goto(4)));
}

fn pre_block(id: u32, exprs: Vec<Option<u64>>, succs: Option<Vec<u32>>) -> PreBlock {
    PreBlock { id, exprs, succs }
}

#[test]
fn pre_morel_collect_empty() {
    let mut module = MirModule { blocks: vec![] };
    let r = MorelRenvoisePrePass::new().run(&mut module);
    assert_eq!(r.count, 0);
    assert!(!r.changed);
}

#[test]
fn pre_morel_filter_single() {
    // one occurrence of expression 7: nothing to place
    let mut module = MirModule { blocks: vec![pre_block(0, vec![Some(7)], Some(vec![1])), pre_block(1, vec![], Some(vec![]))] };
    let r = MorelRenvoisePrePass::new().run(&mut module);
    assert_eq!(r.count, 0);
}

#[test]
fn pre_morel_filter_multi() {
    // expression 7 occurs in blocks 0 and 1; block 1 returns
    let mut module = MirModule { blocks: vec![pre_block(0, vec![Some(7)], Some(vec![1])), pre_block(1, vec![Some(7)], Some(vec![]))] };
    let r = MorelRenvoisePrePass::new().run(&mut module);
    assert_eq!(r.count, 1);
    assert!(!r.changed);
    assert_eq!(module.blocks.len(), 2);
}

#[test]
fn pre_counts_each_repeated_expression_at_each_exit() {
    // 0 -> {1, 2}; 1 -> 3; 2 and 3 return; block 4 returns but nothing jumps to it.
    // Expressions 5 and 6 occur twice, 8 once: two expressions, two placement points (2 and 3).
    let mut module = MirModule {
        blocks: vec![
            pre_block(0, vec![Some(5), None, Some(6)], Some(vec![1, 2])),
            pre_block(1, vec![Some(5), Some(8)], Some(vec![3])),
            pre_block(2, vec![Some(6)], Some(vec![])),
            pre_block(3, vec![], None),
            pre_block(4, vec![], Some(vec![])),
        ],
    };
    let r = MorelRenvoisePrePass::new().run(&mut module);
    assert_eq!(r.count, 4);
    // a jump to an id that no block has is no placement point
    let mut module = MirModule { blocks: vec![pre_block(0, vec![Some(1), Some(1)], Some(vec![9]))] };
    assert_eq!(MorelRenvoisePrePass::new().run(&mut module).count, 0);
}
