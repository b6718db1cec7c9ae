use queue_sim::tabs::{default_tabs, ServerTab, TabType};

#[test]
fn titles_of_the_tabs() {
    assert_eq!(TabType::Midsquare.title(), "MidSquare");
    assert_eq!(TabType::Lcg.title(), "LCG");
    assert_eq!(TabType::Server(ServerTab::InService).title(), "Input service");
    assert_eq!(TabType::Server(ServerTab::OutService).title(), "Output service");
    assert_eq!(TabType::Server(ServerTab::InArrival).title(), "Input arrival");
    assert_eq!(TabType::Server(ServerTab::OutArrival).title(), "Output arrival");
    assert_eq!(TabType::Server(ServerTab::InRes).title(), "input res");
    assert_eq!(TabType::Server(ServerTab::OutRes).title(), "output res");
    assert_eq!(TabType::Server(ServerTab::Wd).title(), "wd");
}

#[test]
fn application_opens_three_tabs() {
    assert_eq!(
        default_tabs(),
        vec![TabType::Lcg, TabType::Midsquare, TabType::Server(ServerTab::Wd)]
    );
}
