use meta_agents_server::storage::{StorageConfig, SESSIONS_PER_AGENT};

// The executable stays thin because the mapping of its command-line capacities
// lives in the library: this checks that mapping, with the
// fixed session capacity.
#[test]
fn executable_remains_a_thin_tokio_adapter() {
    let config = StorageConfig::from_cli(17, 31, 47, 61, 73);
    assert_eq!(config.max_agents, 17);
    assert_eq!(config.events_per_agent, 31);
    assert_eq!(config.recent_events, 47);
    assert_eq!(config.sessions_per_agent, 16);
    assert_eq!(config.max_tasks, 61);
    assert_eq!(config.max_lessons, 73);
    assert_eq!(SESSIONS_PER_AGENT, 16);
    let defaults = StorageConfig::from_cli(256, 512, 1024, 512, 512);
    let expected = StorageConfig::default();
    assert_eq!(defaults.max_agents, expected.max_agents);
    assert_eq!(defaults.sessions_per_agent, expected.sessions_per_agent);
}
