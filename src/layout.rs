//! Order and collapse state of the sections of the system report.
use vstd::prelude::*;

verus! {

/// The sections of the system report.
#[derive(Clone, Copy, PartialEq, Eq, Hash, Debug, Structural)]
pub enum SectionId {
    DiskSpace,
    Memory,
    LoadAverage,
    CpuProcesses,
    DiskIo,
    Network,
    FileDescriptors,
    ContextSwitches,
    SocketOverview,
}

pub open spec fn section_title(id: SectionId) -> Seq<char> {
    match id {
        SectionId::DiskSpace => "Disk Space Warnings"@,
        SectionId::Memory => "Memory Overview"@,
        SectionId::LoadAverage => "Load Average"@,
        SectionId::CpuProcesses => "Top 5 CPU Processes (Past 1 Minute)"@,
        SectionId::DiskIo => "Top 5 Disk I/O Processes (Past 1 Minute)"@,
        SectionId::Network => "Network & Bandwidth"@,
        SectionId::FileDescriptors => "Open File Descriptors"@,
        SectionId::ContextSwitches => "Context Switches"@,
        SectionId::SocketOverview => "TCP/Socket Overview"@,
    }
}

impl SectionId {
    /// The heading shown for the section.
    pub fn title(&self) -> (r: String)
        ensures
            r@ == section_title(*self),
    {
        match self {
            SectionId::DiskSpace => String::from_str("Disk Space Warnings"),
            SectionId::Memory => String::from_str("Memory Overview"),
            SectionId::LoadAverage => String::from_str("Load Average"),
            SectionId::CpuProcesses => String::from_str("Top 5 CPU Processes (Past 1 Minute)"),
            SectionId::DiskIo => String::from_str("Top 5 Disk I/O Processes (Past 1 Minute)"),
            SectionId::Network => String::from_str("Network & Bandwidth"),
            SectionId::FileDescriptors => String::from_str("Open File Descriptors"),
            SectionId::ContextSwitches => String::from_str("Context Switches"),
            SectionId::SocketOverview => String::from_str("TCP/Socket Overview"),
        }
    }
}

pub struct SectionLayout {
    pub id: SectionId,
    pub title: String,
    pub collapsed: bool,
}

impl SectionLayout {
    /// An expanded section with its heading.
    pub fn new(id: SectionId) -> (r: Self)
        ensures
            r.id == id,
            r.title@ == section_title(id),
            !r.collapsed,
    {
        SectionLayout { title: id.title(), id, collapsed: false }
    }

    /// The same section, collapsed.
    pub fn collapsed(self) -> (r: Self)
        ensures
            r.id == self.id,
            r.title == self.title,
            r.collapsed,
    {
        let mut s = self;
        s.collapsed = true;
        s
    }
}

pub struct Layout {
    pub sections: Vec<SectionLayout>,
}

/// The default order of the report's sections.
pub open spec fn default_order() -> Seq<SectionId> {
    seq![
        SectionId::LoadAverage,
        SectionId::DiskSpace,
        SectionId::Memory,
        SectionId::CpuProcesses,
        SectionId::DiskIo,
        SectionId::Network,
        SectionId::FileDescriptors,
        SectionId::ContextSwitches,
        SectionId::SocketOverview,
    ]
}

/// Whether the first section with `id` is collapsed; false where none has it.
pub open spec fn collapsed_in(s: Seq<SectionLayout>, id: SectionId) -> bool
    decreases s.len(),
{
    if s.len() == 0 {
        false
    } else if s[0].id == id {
        s[0].collapsed
    } else {
        collapsed_in(s.drop_first(), id)
    }
}

/// The index of the first section with `id`.
pub open spec fn first_with(s: Seq<SectionLayout>, id: SectionId) -> Option<int>
    decreases s.len(),
{
    if s.len() == 0 {
        None
    } else if s[0].id == id {
        Some(0)
    } else {
        match first_with(s.drop_first(), id) {
            Some(k) => Some(k + 1),
            None => None,
        }
    }
}

fn find_section(s: &Vec<SectionLayout>, id: SectionId) -> (r: Option<usize>)
    ensures
        match r {
            Some(k) => first_with(s@, id) == Some(k as int) && k < s@.len(),
            None => first_with(s@, id) is None,
        },
        collapsed_in(s@, id) == match r {
            Some(k) => s@[k as int].collapsed,
            None => false,
        },
{
    let mut k: usize = 0;
    assert(s@.skip(0) =~= s@);
    while k < s.len()
        invariant
            k <= s@.len(),
            first_with(s@, id) == match first_with(s@.skip(k as int), id) {
                Some(j) => Some(j + k),
                None => None,
            },
            collapsed_in(s@, id) == collapsed_in(s@.skip(k as int), id),
        decreases s.len() - k,
    {
        assert(s@.skip(k as int).drop_first() =~= s@.skip(k + 1));
        if s[k].id == id {
            return Some(k);
        }
        k = k + 1;
    }
    None
}

impl Layout {
    /// The report's sections in their default order; context switches and
    /// sockets start collapsed.
    pub fn default_layout() -> (r: Self)
        ensures
            r.sections@.map_values(|s: SectionLayout| s.id) == default_order(),
            forall|i: int|
                0 <= i < r.sections@.len() ==> (#[trigger] r.sections@[i]).collapsed == (i >= 7),
            forall|i: int|
                0 <= i < r.sections@.len() ==> (#[trigger] r.sections@[i]).title@ == section_title(
                    r.sections@[i].id,
                ),
    {
        let mut v: Vec<SectionLayout> = Vec::new();
        v.push(SectionLayout::new(SectionId::LoadAverage));
        v.push(SectionLayout::new(SectionId::DiskSpace));
        v.push(SectionLayout::new(SectionId::Memory));
        v.push(SectionLayout::new(SectionId::CpuProcesses));
        v.push(SectionLayout::new(SectionId::DiskIo));
        v.push(SectionLayout::new(SectionId::Network));
        v.push(SectionLayout::new(SectionId::FileDescriptors));
        v.push(SectionLayout::new(SectionId::ContextSwitches).collapsed());
        v.push(SectionLayout::new(SectionId::SocketOverview).collapsed());
        assert(v@.map_values(|s: SectionLayout| s.id) =~= default_order());
        Layout { sections: v }
    }

    /// Flips the collapse state of the first section with `id`.
    pub fn toggle_section(&mut self, id: SectionId)
        ensures
            match first_with(old(self).sections@, id) {
                Some(k) => final(self).sections@ == old(self).sections@.update(
                    k,
                    SectionLayout {
                        collapsed: !old(self).sections@[k].collapsed,
                        ..old(self).sections@[k]
                    },
                ),
                None => final(self).sections@ == old(self).sections@,
            },
    {
        match find_section(&self.sections, id) {
            Some(k) => {
                let c = self.sections[k].collapsed;
                self.sections[k].collapsed = !c;
            },
            None => {},
        }
    }

    /// Whether the section with `id` is collapsed.
    pub fn is_collapsed(&self, id: SectionId) -> (r: bool)
        ensures
            r == collapsed_in(self.sections@, id),
    {
        match find_section(&self.sections, id) {
            Some(k) => self.sections[k].collapsed,
            None => false,
        }
    }
}

} // verus!
