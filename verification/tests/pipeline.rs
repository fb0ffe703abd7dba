use brush_traffic::fetch::FetchAction;
use brush_traffic::server::{consumer_step, pages, IDLE_TIMEOUT_SECS, PAGE_LIMIT};
use brush_traffic::{
    ConsumerAction, ConsumerEvent, FetcherOf66, FetcherOfHappy, FetcherOfQuick, Ipv4Addr, Proxy,
    ProxyBuilder, ProxyType, StrategyId, Supervisor,
};

#[test]
fn page_urls_66() {
    let urls = FetcherOf66::new().page_urls(Some(1));
    assert_eq!(urls, vec!["http://www.66ip.cn/1.html".to_string()]);
    let urls = FetcherOf66::new().page_urls(None);
    assert_eq!(urls, vec!["http://www.66ip.cn/1.html".to_string()]);
}

#[test]
fn page_urls_happy_page_two() {
    // A two-URL strategy issues exactly two requests per call.
    let urls = FetcherOfHappy::new().page_urls(Some(2));
    assert_eq!(
        urls,
        vec![
            "http://www.kxdaili.com/dailiip/1/2.html".to_string(),
            "http://www.kxdaili.com/dailiip/2/2.html".to_string(),
        ]
    );
}

#[test]
fn page_urls_quick() {
    let urls = FetcherOfQuick::new().page_urls(Some(3));
    assert_eq!(
        urls,
        vec![
            "https://free.kuaidaili.com/free/inha/3/".to_string(),
            "https://free.kuaidaili.com/free/intr/3/".to_string(),
        ]
    );
}

#[test]
fn two_url_call_plans_delay_between_requests() {
    let plan = FetcherOfHappy::new().request_plan(Some(2));
    assert_eq!(
        plan,
        vec![FetchAction::Request(0), FetchAction::DelaySecs(1), FetchAction::Request(1)]
    );
    let plan = FetcherOfQuick::new().request_plan(Some(1));
    assert_eq!(plan.iter().filter(|a| matches!(a, FetchAction::Request(_))).count(), 2);
    let plan = FetcherOf66::new().request_plan(Some(1));
    assert_eq!(plan, vec![FetchAction::Request(0)]);
}

#[test]
fn registry_lists_active_strategies() {
    assert_eq!(ProxyBuilder::build(), vec![StrategyId::Of66, StrategyId::OfHappy]);
}

#[test]
fn every_task_pages_one_through_five() {
    assert_eq!(pages(), vec![1, 2, 3, 4, 5]);
    assert_eq!(pages().len(), PAGE_LIMIT as usize);
}

#[test]
fn supervisor_closes_only_after_all_tasks() {
    let strategies = ProxyBuilder::build();
    let mut sup = Supervisor::new(strategies.len());
    assert!(!sup.all_finished());
    sup.record_task_done();
    assert!(!sup.all_finished());
    sup.record_task_done();
    assert!(sup.all_finished());
    sup.close();
}

#[test]
fn consumer_decisions() {
    let p = Proxy {
        protocol: ProxyType::HTTPS,
        ipv4addr: Ipv4Addr { o1: 127, o2: 0, o3: 0, o4: 1 },
        port: 8080,
    };
    assert_eq!(consumer_step(ConsumerEvent::Received(p)), ConsumerAction::Visit(p));
    assert_eq!(consumer_step(ConsumerEvent::Closed), ConsumerAction::Exit);
    assert_eq!(consumer_step(ConsumerEvent::Idle), ConsumerAction::Wait);
    assert!(IDLE_TIMEOUT_SECS > 0);
}
