use citygen::city::population::mind::relations::invert_relation;
use citygen::city::population::mind::relations::RelationVerb;

#[test]
fn invert_relation_swaps_parent_and_child() {
    assert_eq!(invert_relation(&RelationVerb::Parent), Some(RelationVerb::Child));
}
