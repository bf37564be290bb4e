use axonmq::config::chain::Chain as ChainConfig;
use axonmq::config::router::Router as RouteConfig;
use axonmq::mqtt::protocol::publish::PublishOptions;
use axonmq::mqtt::QoS;
use axonmq::operator::command::OperatorCommand;
use axonmq::operator::matcher::{Delivery, Matcher, Subscriber};
use axonmq::operator::router::Router;
use axonmq::operator::chain::{ChainStep, ProcessorChain};
use axonmq::operator::sink::sink_command;
use axonmq::mqtt::command::ClientCommand;
use axonmq::processor::message::Message;

fn subscribe(client: &str, group: Option<&str>, topic: &str, qos: QoS, no_local: bool) -> OperatorCommand {
    OperatorCommand::Subscribe {
        client_id: client.to_string(),
        share_group: group.map(|g| g.to_string()),
        topic: topic.to_string(),
        qos,
        no_local,
        subscription_id: None,
        persist: false,
    }
}

fn publish(client: &str, topic: &str, qos: QoS) -> OperatorCommand {
    OperatorCommand::Publish {
        client_id: client.to_string(),
        retain: false,
        qos,
        topic: topic.to_string(),
        payload: b"hello".to_vec(),
        user_properties: vec![],
        options: PublishOptions::default(),
    }
}

fn receivers(d: &[Delivery]) -> Vec<String> {
    let mut v: Vec<String> = d.iter().map(|x| x.message.client_id.clone()).collect();
    v.sort();
    v
}

#[test]
fn publish_reaches_matching_subscribers_at_lower_qos() {
    let mut m = Matcher::new();
    assert!(m.process_command(subscribe("a", None, "s/+", QoS::AtLeastOnce, false)).is_empty());
    m.process_command(subscribe("b", None, "s/#", QoS::ExactlyOnce, false));
    m.process_command(subscribe("c", None, "other", QoS::ExactlyOnce, false));
    let d = m.process_command(publish("p", "s/x", QoS::ExactlyOnce));
    assert_eq!(receivers(&d), vec!["a".to_string(), "b".to_string()]);
    for x in &d {
        assert_eq!(x.message.topic, "s/x");
        assert_eq!(x.message.payload, b"hello".to_vec());
        let expected = if x.message.client_id == "a" { QoS::AtLeastOnce } else { QoS::ExactlyOnce };
        assert_eq!(x.message.qos, expected);
    }
}

#[test]
fn no_local_subscriber_does_not_get_its_own_message() {
    let mut m = Matcher::new();
    m.process_command(subscribe("a", None, "t", QoS::AtMostOnce, true));
    m.process_command(subscribe("b", None, "t", QoS::AtMostOnce, false));
    let d = m.process_command(publish("a", "t", QoS::AtMostOnce));
    assert_eq!(receivers(&d), vec!["b".to_string()]);
    let d = m.process_command(publish("b", "t", QoS::AtMostOnce));
    assert_eq!(receivers(&d), vec!["a".to_string(), "b".to_string()]);
}

#[test]
fn share_group_gets_one_copy_round_robin() {
    let mut m = Matcher::new();
    m.process_command(subscribe("a", Some("g"), "t", QoS::AtMostOnce, false));
    m.process_command(subscribe("b", Some("g"), "t", QoS::AtMostOnce, false));
    m.process_command(subscribe("c", None, "t", QoS::AtMostOnce, false));
    let mut seen = Vec::new();
    for _ in 0..4 {
        let d = m.process_command(publish("p", "t", QoS::AtMostOnce));
        assert_eq!(d.len(), 2);
        let shared: Vec<String> = d
            .iter()
            .map(|x| x.message.client_id.clone())
            .filter(|c| c != "c")
            .collect();
        assert_eq!(shared.len(), 1);
        seen.push(shared[0].clone());
    }
    assert_ne!(seen[0], seen[1]);
    assert_eq!(seen[0], seen[2]);
}

#[test]
fn unsubscribe_and_remove_client_stop_deliveries() {
    let mut m = Matcher::new();
    m.process_command(subscribe("a", None, "t/#", QoS::AtMostOnce, false));
    m.process_command(subscribe("b", None, "t/#", QoS::AtMostOnce, false));
    assert_eq!(m.process_command(publish("p", "t/1", QoS::AtMostOnce)).len(), 2);
    m.process_command(OperatorCommand::Unsubscribe {
        client_id: "a".to_string(),
        share_group: None,
        topic: "t/#".to_string(),
    });
    assert_eq!(receivers(&m.process_command(publish("p", "t/1", QoS::AtMostOnce))), vec!["b".to_string()]);
    m.process_command(OperatorCommand::RemoveClient { client_id: "b".to_string() });
    assert!(m.process_command(publish("p", "t/1", QoS::AtMostOnce)).is_empty());
}

#[test]
fn new_subscription_is_seen_after_topic_was_cached() {
    let mut m = Matcher::new();
    m.process_command(subscribe("a", None, "t", QoS::AtMostOnce, false));
    assert_eq!(m.process_command(publish("p", "t", QoS::AtMostOnce)).len(), 1);
    m.process_command(subscribe("b", None, "+", QoS::AtMostOnce, false));
    assert_eq!(m.process_command(publish("p", "t", QoS::AtMostOnce)).len(), 2);
}

#[test]
fn delivery_carries_subscription_identifier() {
    let mut m = Matcher::new();
    m.process_command(OperatorCommand::Subscribe {
        client_id: "a".to_string(),
        share_group: None,
        topic: "t".to_string(),
        qos: QoS::AtMostOnce,
        no_local: false,
        subscription_id: Some(7),
        persist: true,
    });
    let d = m.process_command(publish("p", "t", QoS::AtMostOnce));
    assert_eq!(d.len(), 1);
    assert_eq!(d[0].message.options.subscription_identifier, Some(7));
    assert!(d[0].persist);
}

#[test]
fn subscriber_filter_local() {
    let mut s = Subscriber::default("a".to_string(), None);
    assert!(s.filter_local("a"));
    s.no_local = true;
    assert!(!s.filter_local("a"));
    assert!(s.filter_local("b"));
    assert!(s == Subscriber::default("a".to_string(), None));
    assert!(s != Subscriber::default("a".to_string(), Some("g".to_string())));
}

fn route(topic: &str, client: Option<&str>, chains: &[&str]) -> RouteConfig {
    RouteConfig {
        topic: topic.to_string(),
        client_id: client.map(|c| c.to_string()),
        chain: chains.iter().map(|c| c.to_string()).collect(),
    }
}

fn chain(name: &str, processors: &[&str], delivery: bool) -> ChainConfig {
    ChainConfig {
        name: name.to_string(),
        processors: processors.iter().map(|p| p.to_string()).collect(),
        delivery,
    }
}

#[test]
fn router_finds_chains_by_topic_and_client() {
    let routes = vec![
        route("sensors/#", None, &["store"]),
        route("sensors/+/temp", Some("dev1"), &["alert", "missing"]),
    ];
    let chains = vec![chain("store", &["p1", "p2"], true), chain("alert", &["p3"], false)];
    let built = vec!["p1".to_string(), "p3".to_string()];
    let mut r = Router::new(&routes, &chains, &built);

    let found = r.find_chain("sensors/a/temp", "dev1").unwrap();
    let mut names: Vec<String> = found.iter().map(|c| c.name.clone()).collect();
    names.sort();
    assert_eq!(names, vec!["alert".to_string(), "store".to_string()]);
    let store = found.iter().find(|c| c.name == "store").unwrap();
    assert_eq!(store.processors, vec!["p1".to_string()]);
    assert!(store.delivery);

    let found = r.find_chain("sensors/a/temp", "dev2").unwrap();
    assert_eq!(found.len(), 1);
    assert_eq!(found[0].name, "store");

    assert!(r.find_chain("other", "dev1").is_none());
    // a second lookup comes from the cache and gives the same
    assert!(r.find_chain("other", "dev1").is_none());
    assert_eq!(r.find_chain("sensors/a/temp", "dev2").unwrap().len(), 1);
}

#[test]
fn cached_lookup_gives_what_routing_gives() {
    let routes = vec![
        route("a/#", None, &["x"]),
        route("a/+", Some("c1"), &["y"]),
        route("b", None, &["x"]),
    ];
    let chains = vec![chain("x", &["p"], true), chain("y", &["p"], false)];
    let built = vec!["p".to_string()];
    let mut r = Router::new(&routes, &chains, &built);
    for (topic, client) in [("a/1", "c1"), ("a/1", "c2"), ("b", "c1"), ("c", "c1"), ("a/1", "c1")] {
        let direct = r.route(topic, client);
        let cached = r.find_chain(topic, client);
        let names = |v: Option<Vec<axonmq::operator::chain::ProcessorChain>>| {
            let mut n: Vec<String> = v.unwrap_or_default().iter().map(|c| c.name.clone()).collect();
            n.sort();
            n
        };
        assert_eq!(names(direct), names(cached));
    }
}

#[test]
fn chain_output_and_sink_command() {
    let m = || Message::new("c1".to_string(), "t".to_string(), QoS::AtLeastOnce, false, vec![1], vec![]);
    let delivering = ProcessorChain { name: "d".to_string(), processors: vec![], delivery: true };
    let silent = ProcessorChain { name: "s".to_string(), processors: vec![], delivery: false };
    match delivering.output(Some(m())) {
        Some(OperatorCommand::Publish { client_id, topic, payload, .. }) => {
            assert_eq!(client_id, "c1");
            assert_eq!(topic, "t");
            assert_eq!(payload, vec![1]);
        }
        _ => panic!("expected a publish request"),
    }
    assert!(delivering.output(None).is_none());
    assert!(silent.output(Some(m())).is_none());

    let (to, cmd, keep) = sink_command(Delivery { message: m(), persist: true });
    assert_eq!(to, "c1");
    assert!(keep);
    assert!(matches!(cmd, ClientCommand::Publish { qos: QoS::AtLeastOnce, .. }));
    let mut m0 = m();
    m0.qos = QoS::AtMostOnce;
    let (_, _, keep) = sink_command(Delivery { message: m0, persist: true });
    assert!(!keep);
    let (_, _, keep) = sink_command(Delivery { message: m(), persist: false });
    assert!(!keep);
}

#[test]
fn chain_steps_run_processors_in_order() {
    let chain = ProcessorChain {
        name: "c".to_string(),
        processors: vec!["p1".to_string(), "p2".to_string()],
        delivery: true,
    };
    let m = || Message::new("c1".to_string(), "t".to_string(), QoS::AtMostOnce, false, vec![], vec![]);
    match chain.next_step(0, Some(m())) {
        ChainStep::Run { processor, message } => {
            assert_eq!(processor, "p1");
            assert_eq!(message.topic, "t");
        }
        _ => panic!("expected the first processor"),
    }
    match chain.next_step(1, Some(m())) {
        ChainStep::Run { processor, .. } => assert_eq!(processor, "p2"),
        _ => panic!("expected the second processor"),
    }
    assert!(matches!(chain.next_step(2, Some(m())), ChainStep::Finish(Some(OperatorCommand::Publish { .. }))));
    assert!(matches!(chain.next_step(1, None), ChainStep::Finish(None)));
}
