use std::sync::{Arc, Mutex};

use rllm_graph::{FunctionNode, GraphBuilder, RllmError, Task};

fn recorder(log: &Arc<Mutex<Vec<String>>>, name: &str) -> Task {
    let log = Arc::clone(log);
    let name = name.to_string();
    Task::Function(FunctionNode::new(move |_state| {
        log.lock().unwrap().push(name.clone());
        Ok(())
    }))
}

#[test]
fn chain_runs_in_edge_order_each_once() {
    let log = Arc::new(Mutex::new(Vec::new()));
    let mut builder = GraphBuilder::new();
    builder.add_node("A".to_string(), recorder(&log, "A"));
    builder.add_node("B".to_string(), recorder(&log, "B"));
    builder.add_node("C".to_string(), recorder(&log, "C"));
    builder.add_edge(("A".to_string(), "B".to_string()));
    builder.add_edge(("B".to_string(), "C".to_string()));
    let graph = builder.build();
    assert_eq!(graph.execution_order(), vec!["A".to_string(), "B".to_string(), "C".to_string()]);
    assert!(graph.run().is_ok());
    assert_eq!(*log.lock().unwrap(), vec!["A".to_string(), "B".to_string(), "C".to_string()]);
}

#[test]
fn fan_out_runs_source_once_and_both_destinations() {
    let log = Arc::new(Mutex::new(Vec::new()));
    let mut builder = GraphBuilder::new();
    builder.add_node("A".to_string(), recorder(&log, "A"));
    builder.add_node("B".to_string(), recorder(&log, "B"));
    builder.add_node("C".to_string(), recorder(&log, "C"));
    builder.add_edge(("A".to_string(), "B".to_string()));
    builder.add_edge(("A".to_string(), "C".to_string()));
    let graph = builder.build();
    assert_eq!(graph.execution_order(), vec!["A".to_string(), "B".to_string(), "C".to_string()]);
    assert!(graph.run().is_ok());
    let seen = log.lock().unwrap().clone();
    assert_eq!(seen, vec!["A".to_string(), "B".to_string(), "C".to_string()]);
    assert_eq!(seen.iter().filter(|n| n.as_str() == "A").count(), 1);
}

#[test]
fn unregistered_task_is_skipped_without_error() {
    let log = Arc::new(Mutex::new(Vec::new()));
    let mut builder = GraphBuilder::new();
    builder.add_node("A".to_string(), recorder(&log, "A"));
    builder.add_edge(("A".to_string(), "ghost".to_string()));
    builder.add_edge(("ghost".to_string(), "A".to_string()));
    let graph = builder.build();
    assert_eq!(graph.execution_order(), vec!["A".to_string()]);
    assert!(graph.run().is_ok());
    assert_eq!(*log.lock().unwrap(), vec!["A".to_string()]);
}

#[test]
fn duplicate_edges_still_run_once() {
    let log = Arc::new(Mutex::new(Vec::new()));
    let mut builder = GraphBuilder::new();
    builder.add_node("A".to_string(), recorder(&log, "A"));
    builder.add_node("B".to_string(), recorder(&log, "B"));
    builder.add_edge(("A".to_string(), "B".to_string()));
    builder.add_edge(("A".to_string(), "B".to_string()));
    let graph = builder.build();
    assert!(graph.run().is_ok());
    assert_eq!(*log.lock().unwrap(), vec!["A".to_string(), "B".to_string()]);
}

#[test]
fn later_registration_replaces_earlier() {
    let log = Arc::new(Mutex::new(Vec::new()));
    let mut builder = GraphBuilder::new();
    builder.add_node("A".to_string(), recorder(&log, "first"));
    builder.add_node("A".to_string(), recorder(&log, "second"));
    builder.add_node("B".to_string(), recorder(&log, "B"));
    builder.add_edge(("A".to_string(), "B".to_string()));
    let graph = builder.build();
    assert!(graph.run().is_ok());
    assert_eq!(*log.lock().unwrap(), vec!["second".to_string(), "B".to_string()]);
}

#[test]
fn first_failure_aborts_the_run() {
    let log = Arc::new(Mutex::new(Vec::new()));
    let mut builder = GraphBuilder::new();
    builder.add_node(
        "A".to_string(),
        Task::Function(FunctionNode::new(|_state| {
            Err(RllmError::Custom("broken".to_string()))
        })),
    );
    builder.add_node("B".to_string(), recorder(&log, "B"));
    builder.add_edge(("A".to_string(), "B".to_string()));
    let graph = builder.build();
    let outcome = graph.run();
    assert!(matches!(outcome, Err(RllmError::Custom(msg)) if msg == "broken"));
    assert!(log.lock().unwrap().is_empty());
}

#[test]
fn empty_graph_runs_ok() {
    let builder = GraphBuilder::new();
    let graph = builder.build();
    assert!(graph.execution_order().is_empty());
    assert!(graph.run().is_ok());
}

#[test]
fn tasks_share_one_blackboard_per_run() {
    let seen = Arc::new(Mutex::new(Vec::new()));
    let seen_b = Arc::clone(&seen);
    let mut builder = GraphBuilder::new();
    builder.add_node(
        "writer".to_string(),
        Task::Function(FunctionNode::new(|state| {
            state.set_rllm_number("shared", 7).map_err(|_| RllmError::Custom("set".to_string()))?;
            Ok(())
        })),
    );
    builder.add_node(
        "reader".to_string(),
        Task::Function(FunctionNode::new(move |state| {
            let value = state
                .get_rllm_number("shared")
                .map_err(|_| RllmError::Custom("get".to_string()))?;
            seen_b.lock().unwrap().push(value);
            Ok(())
        })),
    );
    builder.add_edge(("writer".to_string(), "reader".to_string()));
    let graph = builder.build();
    assert!(graph.run().is_ok());
    assert_eq!(*seen.lock().unwrap(), vec![7]);
}
