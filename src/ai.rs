pub mod mcts;
