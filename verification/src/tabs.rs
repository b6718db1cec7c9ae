use vstd::prelude::*;

verus! {

/// The views of the queue simulation that a tab can show.
#[derive(Clone, Copy, Debug, PartialEq, Eq, Structural)]
pub enum ServerTab {
    InService,
    OutService,
    InArrival,
    OutArrival,
    InRes,
    OutRes,
    Wd,
}

/// The kinds of tab of the application.
#[derive(Clone, Copy, Debug, PartialEq, Eq, Structural)]
pub enum TabType {
    Midsquare,
    Lcg,
    Server(ServerTab),
}

/// The title shown on a tab of the given kind.
pub open spec fn tab_title(t: TabType) -> Seq<char> {
    match t {
        TabType::Midsquare => "MidSquare"@,
        TabType::Lcg => "LCG"@,
        TabType::Server(ServerTab::InService) => "Input service"@,
        TabType::Server(ServerTab::OutService) => "Output service"@,
        TabType::Server(ServerTab::InArrival) => "Input arrival"@,
        TabType::Server(ServerTab::OutArrival) => "Output arrival"@,
        TabType::Server(ServerTab::InRes) => "input res"@,
        TabType::Server(ServerTab::OutRes) => "output res"@,
        TabType::Server(ServerTab::Wd) => "wd"@,
    }
}

impl TabType {
    /// The title shown on the tab.
    pub fn title(&self) -> (s: String)
        ensures
            s@ == tab_title(*self),
            *self == TabType::Midsquare ==> s@ == "MidSquare"@,
            *self == TabType::Lcg ==> s@ == "LCG"@,
            *self == TabType::Server(ServerTab::InService) ==> s@ == "Input service"@,
            *self == TabType::Server(ServerTab::OutService) ==> s@ == "Output service"@,
            *self == TabType::Server(ServerTab::InArrival) ==> s@ == "Input arrival"@,
            *self == TabType::Server(ServerTab::OutArrival) ==> s@ == "Output arrival"@,
            *self == TabType::Server(ServerTab::InRes) ==> s@ == "input res"@,
            *self == TabType::Server(ServerTab::OutRes) ==> s@ == "output res"@,
            *self == TabType::Server(ServerTab::Wd) ==> s@ == "wd"@,
    {
        match self {
            TabType::Midsquare => String::from_str("MidSquare"),
            TabType::Lcg => String::from_str("LCG"),
            TabType::Server(ServerTab::InService) => String::from_str("Input service"),
            TabType::Server(ServerTab::OutService) => String::from_str("Output service"),
            TabType::Server(ServerTab::InArrival) => String::from_str("Input arrival"),
            TabType::Server(ServerTab::OutArrival) => String::from_str("Output arrival"),
            TabType::Server(ServerTab::InRes) => String::from_str("input res"),
            TabType::Server(ServerTab::OutRes) => String::from_str("output res"),
            TabType::Server(ServerTab::Wd) => String::from_str("wd"),
        }
    }
}

/// The tabs that the application opens with: the linear congruential generator, the
/// middle-square generator, and the table of customers.
pub fn default_tabs() -> (tabs: Vec<TabType>)
    ensures
        tabs@ == seq![TabType::Lcg, TabType::Midsquare, TabType::Server(ServerTab::Wd)],
{
    let mut tabs: Vec<TabType> = Vec::new();
    tabs.push(TabType::Lcg);
    tabs.push(TabType::Midsquare);
    tabs.push(TabType::Server(ServerTab::Wd));
    tabs
}

} // verus!
