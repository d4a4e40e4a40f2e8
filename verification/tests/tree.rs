use chess_uci::mcts::node::Node;
use chess_uci::mcts::search::{batch_size_for, predictions_to_read, settle_leaf, LeafOutcome, SearchProgress};
use chess_uci::mcts::tree::{ExpandError, MctsTree};
use chess_uci::position::Position;

// e2e4 (line N, distance 2, from e2 = 12), d2d4 (from d2 = 11), g1f3 (knight plane 63, from g1 = 6)
const E2E4: usize = 64 + 12;
const D2D4: usize = 64 + 11;
const G1F3: usize = 63 * 64 + 6;

fn small_tree() -> MctsTree<u32> {
    let mut tree = MctsTree::new(Node::new(None, 0u32));
    tree.expand_node(0, &vec![(E2E4, 10), (D2D4, 11), (G1F3, 12)], &Position::start())
        .expect("legal moves");
    tree
}

#[test]
fn expand_node_appends_linked_children() {
    let tree = small_tree();
    assert_eq!(tree.len(), 4);
    let root = tree.node(0);
    assert!(root.is_expanded && !root.is_pending);
    let kids: Vec<usize> = root.children.iter().map(|c| c.1).collect();
    assert_eq!(kids, vec![1, 2, 3]);
    assert_eq!(root.children[0].0.to_uci_string(), "e2e4");
    for (k, stats) in [(1usize, 10u32), (2, 11), (3, 12)] {
        let n = tree.node(k);
        assert_eq!(n.parent, Some(0));
        assert_eq!(n.stats, stats);
        assert_eq!(n.visit_count, 0);
        assert!(!n.is_expanded && !n.is_pending);
    }
}

#[test]
fn expand_node_twice_changes_nothing() {
    let mut tree = small_tree();
    tree.expand_node(0, &vec![(E2E4, 1)], &Position::start()).unwrap();
    assert_eq!(tree.len(), 4);
    assert_eq!(tree.node(0).children.len(), 3);
}

#[test]
fn expand_node_refuses_bad_indices() {
    let mut tree = MctsTree::new(Node::new(None, 0u32));
    assert_eq!(
        tree.expand_node(0, &vec![(E2E4, 1), (9999, 2)], &Position::start()),
        Err(ExpandError::InvalidIndex(9999))
    );
    assert_eq!(tree.len(), 1);
    // e2e5 (distance 3) is no legal move of the start position
    assert_eq!(
        tree.expand_node(0, &vec![(2 * 64 + 12, 1)], &Position::start()),
        Err(ExpandError::IllegalMove(2 * 64 + 12))
    );
    assert!(!tree.node(0).is_expanded);
}

#[test]
fn backpropagate_counts_the_path_to_the_root() {
    let mut tree = small_tree();
    let path = tree.backpropagate(2);
    assert_eq!(path, vec![2, 0]);
    assert_eq!(tree.node(2).visit_count, 1);
    assert_eq!(tree.node(0).visit_count, 1);
    assert_eq!(tree.node(1).visit_count, 0);
    tree.backpropagate(0);
    assert_eq!(tree.node(0).visit_count, 2);
}

#[test]
fn virtual_loss_is_undone() {
    let mut tree = small_tree();
    tree.add_virtual_loss(0, 10);
    tree.add_virtual_loss(3, 10);
    assert_eq!(tree.node(0).visit_count, 10);
    assert_eq!(tree.node(3).visit_count, 10);
    tree.remove_virtual_loss(&vec![0, 3], 10);
    for i in 0..4 {
        assert_eq!(tree.node(i).visit_count, 0);
    }
}

#[test]
fn best_move_is_the_last_most_visited() {
    let mut tree = small_tree();
    assert_eq!(tree.choisir_meilleur_coup().unwrap().to_uci_string(), "g1f3");
    tree.backpropagate(1);
    tree.backpropagate(1);
    tree.backpropagate(2);
    assert_eq!(tree.choisir_meilleur_coup().unwrap().to_uci_string(), "e2e4");
    tree.backpropagate(2);
    assert_eq!(tree.choisir_meilleur_coup().unwrap().to_uci_string(), "d2d4");
    let lone = MctsTree::new(Node::new(None, 0u32));
    assert!(lone.choisir_meilleur_coup().is_none());
}

#[test]
fn ranking_is_stable_and_by_visits() {
    let mut tree = small_tree();
    tree.backpropagate(3);
    assert_eq!(tree.classement_racine(), vec![2, 0, 1]);
    let top = tree.choisir_x_meilleurs_coups(2);
    assert_eq!(top.report, vec![2, 0]);
    let best: Vec<String> = top.best.iter().map(|m| m.to_uci_string()).collect();
    assert_eq!(best, vec!["g1f3", "e2e4", "d2d4"]);
}

#[test]
fn dot_plan_keeps_visited_nodes() {
    let mut tree = small_tree();
    tree.backpropagate(1);
    tree.backpropagate(3);
    let plan = tree.dot_plan(1);
    let nodes: Vec<usize> = plan.iter().map(|d| d.index).collect();
    assert_eq!(nodes, vec![0, 1, 3]);
    let edges: Vec<usize> = plan[0].edges.iter().map(|e| e.1).collect();
    assert_eq!(edges, vec![1, 3]);
    assert!(plan[1].edges.is_empty());
}

#[test]
fn depth_is_recorded() {
    let mut tree = small_tree();
    assert_eq!(tree.profondeur(), 0);
    tree.note_depth(3);
    tree.note_depth(2);
    assert_eq!(tree.profondeur(), 3);
    tree.set_profondeur(1);
    assert_eq!(tree.profondeur(), 1);
}

#[test]
fn batch_sizes_grow() {
    assert_eq!(batch_size_for(1, 512), 64);
    assert_eq!(batch_size_for(299, 512), 64);
    assert_eq!(batch_size_for(300, 512), 128);
    assert_eq!(batch_size_for(999, 512), 128);
    assert_eq!(batch_size_for(1000, 512), 256);
    assert_eq!(batch_size_for(3999, 512), 256);
    assert_eq!(batch_size_for(4000, 512), 512);
}

#[test]
fn settle_leaf_queues_new_nodes_and_undoes_saturated_descents() {
    let start = Position::start();
    let mut tree = small_tree();
    tree.add_virtual_loss(0, 5);
    // a new node: marked pending, virtual loss kept, depth recorded
    assert_eq!(settle_leaf(&mut tree, &vec![0], 1, 1, 5, &start), LeafOutcome::Queued);
    assert!(tree.node(1).is_pending);
    assert_eq!(tree.node(0).visit_count, 5);
    assert_eq!(tree.profondeur(), 1);
    // the same node again: saturated, virtual loss taken back
    assert_eq!(settle_leaf(&mut tree, &vec![0], 1, 1, 5, &start), LeafOutcome::Saturated);
    assert_eq!(tree.node(0).visit_count, 0);
    // a finished game: virtual loss taken back, node not pending
    let mated = Position::from_fen("rnb1kbnr/pppp1ppp/8/4p3/6Pq/5P2/PPPPP2P/RNBQKBNR w KQkq - 1 3").unwrap();
    assert!(mated.is_game_over() && mated.is_checkmate());
    assert!(!start.is_game_over() && !start.is_checkmate());
    tree.add_virtual_loss(0, 5);
    assert_eq!(settle_leaf(&mut tree, &vec![0], 2, 4, 5, &mated), LeafOutcome::GameOver);
    assert!(!tree.node(2).is_pending);
    assert_eq!(tree.node(0).visit_count, 0);
    assert_eq!(tree.profondeur(), 4);
}

#[test]
fn search_progress_counts_iterations() {
    let mut p = SearchProgress::new(3);
    assert_eq!(p.nb_it, 1);
    assert!(p.running());
    assert_eq!(p.batch_size(512), 64);
    p.count();
    assert!(p.running());
    p.count();
    assert!(!p.running());
    assert_eq!(predictions_to_read(5, 3), 3);
    assert_eq!(predictions_to_read(2, 3), 2);
}
