//! The disk installer of the live workspace: which disks may serve as the
//! source and the target, what it shows, and the copy-then-verify run that
//! writes the image.
use vstd::prelude::*;
use vstd::string::StringSliceAdditionalSpecFns;
use crate::framebuffer::{lemma_ui_write_concat, signed_decimal, ui_wf, ui_write, write_more, Ui, UiView};
use crate::uefi::{error_bit, is_error, BlockMedia, Status};

verus! {

/// Blocks of the hybrid BIOS/UEFI image: 64 MiB of 512-byte blocks.
pub const IMAGE_BLOCKS: u64 = 131_072;

/// Target disks the installer lists at most.
pub const TARGET_CAPACITY: usize = 8;

/// Blocks moved by one read or write.
pub const CHUNK_BLOCKS: usize = 128;

/// A disk that may receive the image: the firmware handle it came from and
/// its medium.
#[derive(Clone, Copy)]
pub struct Target {
    pub handle: usize,
    pub media: BlockMedia,
}

/// The installer: the removable source medium, the candidate targets and
/// the one chosen (none until the user chooses).
pub struct Installer {
    source: Option<usize>,
    targets: Vec<Target>,
    selected: usize,
}

pub struct InstallerView {
    pub source: Option<usize>,
    pub targets: Seq<Target>,
    pub selected: usize,
}

/// A whole medium of 512-byte blocks is present (not a partition).
pub open spec fn whole_medium(m: BlockMedia) -> bool {
    m.media_present != 0 && m.logical_partition == 0 && m.block_size == 512
}

/// A fixed, writable medium large enough for the image.
pub open spec fn target_medium(m: BlockMedia) -> bool {
    m.removable_media == 0 && m.read_only == 0 && m.last_block + 1 >= IMAGE_BLOCKS
}

/// The installer before any disk was seen.
pub open spec fn no_disks() -> InstallerView {
    InstallerView { source: None, targets: Seq::empty(), selected: usize::MAX }
}

/// The installer after looking at the media of the firmware's Block I/O
/// handles, in order (none where a handle gave no medium): the first
/// removable whole medium is the source; fixed, writable whole media of at
/// least the image's size are targets, up to `TARGET_CAPACITY`.
pub open spec fn discovered(media: Seq<Option<BlockMedia>>) -> InstallerView
    decreases media.len(),
{
    if media.len() == 0 {
        no_disks()
    } else {
        let before = discovered(media.drop_last());
        let handle = (media.len() - 1) as usize;
        match media.last() {
            Some(m) => if !whole_medium(m) {
                before
            } else if m.removable_media != 0 && before.source is None {
                InstallerView { source: Some(handle), ..before }
            } else if target_medium(m) && before.targets.len() < TARGET_CAPACITY {
                InstallerView {
                    targets: before.targets.push(Target { handle, media: m }),
                    ..before
                }
            } else {
                before
            },
            None => before,
        }
    }
}

/// A target's size in MiB, as listed.
pub open spec fn target_mib(t: Target) -> int {
    (if t.media.last_block == u64::MAX {
        u64::MAX as int
    } else {
        t.media.last_block + 1
    }) / 2048
}

/// The listing line of the target numbered `index + 1`.
pub open spec fn target_line(index: int, t: Target, selected: usize) -> Seq<u8> {
    "  DISK ".spec_bytes() + signed_decimal(index + 1) + ": ".spec_bytes() + signed_decimal(
        target_mib(t),
    ) + " MiB, media ID ".spec_bytes() + signed_decimal(t.media.media_id as int) + (
    if selected == index {
        "  [SELECTED]".spec_bytes()
    } else {
        Seq::empty()
    }) + "\n".spec_bytes()
}

/// The listing lines of the first `count` targets.
pub open spec fn target_lines(targets: Seq<Target>, selected: usize, count: int) -> Seq<u8>
    decreases count,
{
    if count <= 0 {
        Seq::empty()
    } else {
        target_lines(targets, selected, count - 1) + target_line(
            count - 1,
            targets[count - 1],
            selected,
        )
    }
}

/// What the installer shows: the source, the targets and what to do next.
pub open spec fn installer_text(v: InstallerView) -> Seq<u8> {
    (if v.source is None {
        "Source: no removable BlueOS USB was found.\n".spec_bytes()
    } else {
        "Source: removable live media, 64 MiB payload ready.\n".spec_bytes()
    }) + (if v.targets.len() == 0 {
        "Targets: no writable whole internal disk of at least 64 MiB.\n".spec_bytes()
    } else {
        "Target candidates (selection is mandatory):\n".spec_bytes() + target_lines(
            v.targets,
            v.selected,
            v.targets.len() as int,
        )
    }) + if v.source is None || v.targets.len() == 0 {
        "\nInstaller remains read-only. Check the media and reboot.\n> ".spec_bytes()
    } else if v.selected >= v.targets.len() {
        "\nType INSTALL SELECT 1 (or another listed number).\n> ".spec_bytes()
    } else {
        "\nDANGER: type INSTALL ERASE to overwrite only the selected disk.\n> ".spec_bytes()
    }
}

/// The disks an installation uses: the source's handle and the selected
/// target's, when both are there.
pub open spec fn install_disks(v: InstallerView) -> Option<(usize, usize)> {
    if v.source is Some && v.selected < v.targets.len() {
        Some((v.source.unwrap(), v.targets[v.selected as int].handle))
    } else {
        None
    }
}

impl Installer {
    pub closed spec fn view(&self) -> InstallerView {
        InstallerView { source: self.source, targets: self.targets@, selected: self.selected }
    }

    #[verifier::type_invariant]
    closed spec fn wf(self) -> bool {
        self.targets@.len() <= TARGET_CAPACITY
    }

    /// An installer that found no disks.
    pub fn unavailable() -> (installer: Self)
        ensures
            installer@ == no_disks(),
    {
        Self { source: None, targets: Vec::new(), selected: usize::MAX }
    }

    /// The installer for the media of the firmware's Block I/O handles.
    pub fn discover(media: &[Option<BlockMedia>]) -> (installer: Self)
        ensures
            installer@ == discovered(media@),
    {
        let mut source: Option<usize> = None;
        let mut targets: Vec<Target> = Vec::new();
        let mut index: usize = 0;
        while index < media.len()
            invariant
                index <= media@.len(),
                (InstallerView { source, targets: targets@, selected: usize::MAX }) == discovered(
                    media@.subrange(0, index as int),
                ),
                targets@.len() <= TARGET_CAPACITY,
            decreases media@.len() - index,
        {
            assert(media@.subrange(0, index + 1).drop_last() =~= media@.subrange(0, index as int));
            match media[index] {
                Some(m) => {
                    if m.media_present != 0 && m.logical_partition == 0 && m.block_size == 512 {
                        if m.removable_media != 0 && source.is_none() {
                            source = Some(index);
                        } else if m.removable_media == 0 && m.read_only == 0
                            && m.last_block.saturating_add(1) >= IMAGE_BLOCKS && targets.len()
                            < TARGET_CAPACITY {
                            targets.push(Target { handle: index, media: m });
                        }
                    }
                },
                None => {},
            }
            index = index + 1;
        }
        assert(media@.subrange(0, media@.len() as int) =~= media@);
        Self { source, targets, selected: usize::MAX }
    }

    /// The selected target's handle, if one is selected.
    pub fn target(&self) -> (handle: Option<usize>)
        ensures
            handle == if self@.selected < self@.targets.len() {
                Some(self@.targets[self@.selected as int].handle)
            } else {
                None::<usize>
            },
    {
        if self.selected < self.targets.len() {
            Some(self.targets[self.selected].handle)
        } else {
            None
        }
    }

    /// Shows the installer's findings and what to do next.
    pub fn show(&self, ui: &mut Ui)
        requires
            ui_wf(old(ui)@),
        ensures
            ui_wf(final(ui)@),
            final(ui)@ == ui_write(old(ui)@, installer_text(self@)),
    {
        proof { use_type_invariant(self); }
        let ghost start = ui@;
        assert(ui@ == ui_write(start, Seq::empty())) by {
            assert(start.serial + Seq::<u8>::empty() =~= start.serial);
        }
        let ghost e = Seq::<u8>::empty();
        let source_line = if self.source.is_none() {
            "Source: no removable BlueOS USB was found.\n"
        } else {
            "Source: removable live media, 64 MiB payload ready.\n"
        };
        write_more(ui, source_line, Ghost(start), Ghost(e));
        let ghost w0 = e + source_line.spec_bytes();
        let ghost mut w = w0;
        if self.targets.len() == 0 {
            write_more(ui, "Targets: no writable whole internal disk of at least 64 MiB.\n", Ghost(start), Ghost(w0));
            proof { w = w0 + "Targets: no writable whole internal disk of at least 64 MiB.\n".spec_bytes(); }
        } else {
            write_more(ui, "Target candidates (selection is mandatory):\n", Ghost(start), Ghost(w0));
            let ghost w1 = w0 + "Target candidates (selection is mandatory):\n".spec_bytes();
            proof { w = w1; }
            let mut index: usize = 0;
            while index < self.targets.len()
                invariant
                    ui_wf(start),
                    ui_wf(ui@),
                    self@.targets.len() <= TARGET_CAPACITY,
                    index <= self@.targets.len(),
                    w == w1 + target_lines(self@.targets, self@.selected, index as int),
                    ui@ == ui_write(start, w),
                decreases self@.targets.len() - index,
            {
                let ghost before = w;
                self.write_target(ui, index, Ghost(start), Ghost(before));
                proof {
                    w = before + target_line(index as int, self@.targets[index as int], self@.selected);
                    assert(w =~= w1 + target_lines(self@.targets, self@.selected, index + 1));
                }
                index = index + 1;
            }
        }
        let closing = if self.source.is_none() || self.targets.len() == 0 {
            "\nInstaller remains read-only. Check the media and reboot.\n> "
        } else if self.selected >= self.targets.len() {
            "\nType INSTALL SELECT 1 (or another listed number).\n> "
        } else {
            "\nDANGER: type INSTALL ERASE to overwrite only the selected disk.\n> "
        };
        write_more(ui, closing, Ghost(start), Ghost(w));
        assert(w + closing.spec_bytes() =~= installer_text(self@));
    }

    /// Writes the listing line of target `index` after `written`.
    fn write_target(&self, ui: &mut Ui, index: usize, start: Ghost<UiView>, written: Ghost<Seq<u8>>)
        requires
            ui_wf(start@),
            old(ui)@ == ui_write(start@, written@),
            index < self@.targets.len() <= TARGET_CAPACITY,
        ensures
            ui_wf(final(ui)@),
            final(ui)@ == ui_write(
                start@,
                written@ + target_line(index as int, self@.targets[index as int], self@.selected),
            ),
    {
        let t = self.targets[index];
        let ghost w = written@;
        write_more(ui, "  DISK ", start, written);
        let ghost w1 = w + "  DISK ".spec_bytes();
        let number = (index + 1) as i64;
        proof { lemma_ui_write_concat(start@, w1, signed_decimal(number as int)); }
        ui.write_number(number);
        let ghost w2 = w1 + signed_decimal(number as int);
        write_more(ui, ": ", start, Ghost(w2));
        let ghost w3 = w2 + ": ".spec_bytes();
        let mib = (t.media.last_block.saturating_add(1) / 2_048) as i64;
        assert(mib as int == target_mib(t));
        proof { lemma_ui_write_concat(start@, w3, signed_decimal(mib as int)); }
        ui.write_number(mib);
        let ghost w4 = w3 + signed_decimal(mib as int);
        write_more(ui, " MiB, media ID ", start, Ghost(w4));
        let ghost w5 = w4 + " MiB, media ID ".spec_bytes();
        let id = t.media.media_id as i64;
        proof { lemma_ui_write_concat(start@, w5, signed_decimal(id as int)); }
        ui.write_number(id);
        let ghost w6 = w5 + signed_decimal(id as int);
        let mark = if self.selected == index {
            "  [SELECTED]"
        } else {
            ""
        };
        write_more(ui, mark, start, Ghost(w6));
        let ghost w7 = w6 + mark.spec_bytes();
        write_more(ui, "\n", start, Ghost(w7));
        proof {
            if self.selected != index {
                reveal_strlit("");
            }
        }
        assert(w7 + "\n".spec_bytes() =~= w + target_line(index as int, t, self@.selected));
    }

    /// Selects target `number` (counted from 1) and shows the installer, or
    /// says that no such target is listed.
    pub fn select(&mut self, number: usize, ui: &mut Ui)
        requires
            ui_wf(old(ui)@),
        ensures
            ui_wf(final(ui)@),
            number == 0 || number > old(self)@.targets.len() ==> {
                &&& final(self)@ == old(self)@
                &&& final(ui)@ == ui_write(
                    old(ui)@,
                    "Installer: that disk number is not in the candidate list.\n> ".spec_bytes(),
                )
            },
            1 <= number <= old(self)@.targets.len() ==> {
                &&& final(self)@ == (InstallerView { selected: (number - 1) as usize, ..old(self)@ })
                &&& final(ui)@ == ui_write(old(ui)@, installer_text(final(self)@))
            },
    {
        proof { use_type_invariant(&*self); }
        if number == 0 || number > self.targets.len() {
            ui.write("Installer: that disk number is not in the candidate list.\n> ");
            return;
        }
        self.selected = number - 1;
        self.show(ui);
    }

    /// Starts an installation: the source's and the selected target's
    /// handles when both are there; otherwise shows the installer again.
    pub fn install(&self, ui: &mut Ui) -> (disks: Option<(usize, usize)>)
        requires
            ui_wf(old(ui)@),
        ensures
            ui_wf(final(ui)@),
            disks == install_disks(self@),
            disks is Some ==> final(ui)@ == old(ui)@,
            disks is None ==> final(ui)@ == ui_write(old(ui)@, installer_text(self@)),
    {
        match (self.source, self.target()) {
            (Some(source), Some(target)) => Some((source, target)),
            _ => {
                self.show(ui);
                None
            },
        }
    }
}

/// Handle `s` gave a removable whole medium.
pub open spec fn source_medium(media: Seq<Option<BlockMedia>>, s: usize) -> bool {
    &&& s < media.len()
    &&& media[s as int] is Some
    &&& whole_medium(media[s as int].unwrap())
    &&& media[s as int].unwrap().removable_media != 0
}

/// The source is the first handle with a removable whole medium: no handle
/// before it has one, and when there is no source no handle has one.
pub proof fn lemma_source_is_first(media: Seq<Option<BlockMedia>>)
    requires
        media.len() <= usize::MAX,
    ensures
        discovered(media).source matches Some(s) ==> s < media.len() && forall|j: int|
            0 <= j < s ==> !source_medium(media, #[trigger] (j as usize)),
        discovered(media).source is None ==> forall|j: int|
            0 <= j < media.len() ==> !source_medium(media, #[trigger] (j as usize)),
    decreases media.len(),
{
    if media.len() > 0 {
        let prefix = media.drop_last();
        lemma_source_is_first(prefix);
        let last = media.len() - 1;
        assert forall|j: int| 0 <= j < prefix.len() implies media[j] == #[trigger] prefix[j] by {}
        assert forall|j: int| 0 <= j < prefix.len() implies source_medium(media, j as usize) == source_medium(
            prefix,
            #[trigger] (j as usize),
        ) by {
            assert(media[j] == prefix[j]);
        }
    }
}

/// Every target the installer lists is a fixed, writable whole medium
/// large enough for the image, from a handle other than the source's; the
/// source, when found, is a removable whole medium; and nothing is
/// selected until the user selects it.
pub proof fn lemma_discovered_disks(media: Seq<Option<BlockMedia>>)
    requires
        media.len() <= usize::MAX,
    ensures
        ({
            let v = discovered(media);
            &&& v.targets.len() <= TARGET_CAPACITY
            &&& v.selected == usize::MAX
            &&& install_disks(v) is None
            &&& v.source is Some ==> source_medium(media, v.source.unwrap())
            &&& forall|i: int|
                0 <= i < v.targets.len() ==> {
                    let t = #[trigger] v.targets[i];
                    &&& t.handle < media.len()
                    &&& media[t.handle as int] == Some(t.media)
                    &&& whole_medium(t.media)
                    &&& target_medium(t.media)
                    &&& v.source != Some(t.handle)
                    &&& t.media.media_present != 0 && t.media.logical_partition == 0
                        && t.media.block_size == 512
                    &&& t.media.removable_media == 0 && t.media.read_only == 0
                }
            &&& v.source matches Some(s) ==> (media[s as int] matches Some(m) && m.media_present != 0
                && m.logical_partition == 0 && m.block_size == 512 && m.removable_media != 0)
        }),
    decreases media.len(),
{
    if media.len() > 0 {
        let prefix = media.drop_last();
        lemma_discovered_disks(prefix);
        let before = discovered(prefix);
        let v = discovered(media);
        let last = (media.len() - 1) as int;
        assert forall|j: int| 0 <= j < prefix.len() implies media[j] == #[trigger] prefix[j] by {}
        if before.source is Some {
            assert(source_medium(prefix, before.source.unwrap()));
            assert(media[before.source.unwrap() as int] == prefix[before.source.unwrap() as int]);
        }
        assert forall|i: int| 0 <= i < v.targets.len() implies {
            let t = #[trigger] v.targets[i];
            &&& t.handle < media.len()
            &&& media[t.handle as int] == Some(t.media)
            &&& whole_medium(t.media)
            &&& target_medium(t.media)
            &&& v.source != Some(t.handle)
        } by {
            if i < before.targets.len() {
                let t = before.targets[i];
                assert(v.targets[i] == t);
                assert(prefix[t.handle as int] == Some(t.media));
                assert(media[t.handle as int] == prefix[t.handle as int]);
            } else {
                match media.last() {
                    Some(m) => {
                        if whole_medium(m) && !(m.removable_media != 0 && before.source is None)
                            && target_medium(m) && before.targets.len() < TARGET_CAPACITY {
                            let t = Target { handle: last as usize, media: m };
                            assert(v.targets == before.targets.push(t));
                            assert(v.targets[i] == t);
                        } else {
                            assert(v.targets == before.targets);
                        }
                    },
                    None => {
                        assert(v.targets == before.targets);
                    },
                }
                assert(media[last] == media.last());
            }
        }
        if v.source is Some && before.source is None {
            assert(v.source.unwrap() == last);
            assert(media[last] == media.last());
        }
    }
}

/// The stages of an installation.
#[derive(PartialEq, Eq, Structural, Debug, Clone, Copy)]
pub enum Stage {
    /// Copying the image from the source to the target.
    Writing,
    /// Asking the target to flush its cache.
    Flushing,
    /// Reading both disks back and comparing them.
    Verifying,
    /// Done, successfully or not.
    Finished,
}

/// The disk work an installation asks for next.
#[derive(PartialEq, Eq, Structural, Debug, Clone, Copy)]
pub enum DiskWork {
    /// Read `bytes` at block `lba` from the source and write them to the
    /// target.
    Copy { lba: u64, bytes: usize },
    /// Flush the target.
    Flush,
    /// Read `bytes` at block `lba` from both disks.
    Compare { lba: u64, bytes: usize },
    /// Nothing more.
    Done,
}

/// A running installation: its stage, the next block, when progress is
/// reported next, and whether something failed.
pub struct Installation {
    stage: Stage,
    lba: u64,
    next_report: u64,
    failed: bool,
}

pub struct InstallationView {
    pub stage: Stage,
    pub lba: u64,
    pub next_report: u64,
    pub failed: bool,
}

/// The blocks the next transfer at `lba` moves.
pub open spec fn chunk_at(lba: u64) -> int {
    vstd::math::min(IMAGE_BLOCKS - lba, CHUNK_BLOCKS as int)
}

/// The work a stage asks for.
pub open spec fn spec_work(v: InstallationView) -> DiskWork {
    match v.stage {
        Stage::Writing => DiskWork::Copy { lba: v.lba, bytes: (chunk_at(v.lba) * 512) as usize },
        Stage::Flushing => DiskWork::Flush,
        Stage::Verifying => DiskWork::Compare { lba: v.lba, bytes: (chunk_at(v.lba) * 512) as usize },
        Stage::Finished => DiskWork::Done,
    }
}

/// The last lines of an installation, and a prompt.
pub open spec fn finish_text(failed: bool) -> Seq<u8> {
    if failed {
        "Installation did not complete safely. The target may be unusable.\n> ".spec_bytes()
    } else {
        "INSTALLATION VERIFIED. Remove the USB drive and reboot.\n> ".spec_bytes()
    }
}

/// An installation that failed and finished.
pub open spec fn failed_at(v: InstallationView) -> InstallationView {
    InstallationView { stage: Stage::Finished, failed: true, ..v }
}

/// The state after a chunk at `v.lba` was moved (or compared), and the
/// progress line it reports after `label`.
pub open spec fn advanced(v: InstallationView) -> InstallationView {
    let lba = (v.lba + chunk_at(v.lba)) as u64;
    InstallationView {
        lba,
        next_report: if lba >= v.next_report {
            (lba + IMAGE_BLOCKS / 10) as u64
        } else {
            v.next_report
        },
        ..v
    }
}

pub open spec fn progress_text(v: InstallationView, label: Seq<u8>) -> Seq<u8> {
    let lba = advanced(v).lba;
    if lba >= v.next_report {
        label + signed_decimal(lba * 100 / IMAGE_BLOCKS as int) + "%\n".spec_bytes()
    } else {
        Seq::empty()
    }
}

/// What holds of every installation: it stays within the image, reports
/// progress at most a tenth of the image ahead, fails only by finishing,
/// and finishes without failure only after its verification reached the
/// end of the image.
pub open spec fn installation_wf(v: InstallationView) -> bool {
    &&& v.lba <= IMAGE_BLOCKS
    &&& v.next_report <= IMAGE_BLOCKS + IMAGE_BLOCKS / 10
    &&& (v.stage == Stage::Writing || v.stage == Stage::Verifying) ==> v.lba < IMAGE_BLOCKS
    &&& v.stage == Stage::Flushing ==> v.lba == IMAGE_BLOCKS && !v.failed
    &&& v.stage != Stage::Finished ==> !v.failed
    &&& v.stage == Stage::Finished && !v.failed ==> v.lba == IMAGE_BLOCKS
}

/// Every transfer an installation asks for moves at least one and at
/// most `CHUNK_BLOCKS` blocks, all within the image.
pub proof fn lemma_transfers_in_image(v: InstallationView)
    requires
        installation_wf(v),
    ensures
        spec_work(v) matches DiskWork::Copy { lba, bytes } ==> 0 < bytes <= CHUNK_BLOCKS * 512
            && bytes % 512 == 0 && lba + bytes / 512 <= IMAGE_BLOCKS,
        spec_work(v) matches DiskWork::Compare { lba, bytes } ==> 0 < bytes <= CHUNK_BLOCKS * 512
            && bytes % 512 == 0 && lba + bytes / 512 <= IMAGE_BLOCKS,
{
}

impl Installation {
    pub closed spec fn view(&self) -> InstallationView {
        InstallationView { stage: self.stage, lba: self.lba, next_report: self.next_report, failed: self.failed }
    }

    #[verifier::type_invariant]
    closed spec fn wf(self) -> bool {
        installation_wf(self@)
    }

    /// Reports that the firmware could not allocate the transfer buffers.
    pub fn allocation_failed(ui: &mut Ui)
        requires
            ui_wf(old(ui)@),
        ensures
            ui_wf(final(ui)@),
            final(ui)@ == ui_write(
                old(ui)@,
                "Installer error: firmware could not allocate transfer buffers.\n> ".spec_bytes(),
            ),
    {
        ui.write("Installer error: firmware could not allocate transfer buffers.\n> ");
    }

    /// Starts writing the image at block 0.
    pub fn start(ui: &mut Ui) -> (installation: Self)
        requires
            ui_wf(old(ui)@),
        ensures
            ui_wf(final(ui)@),
            final(ui)@ == ui_write(old(ui)@, "Writing BlueOS hybrid BIOS/UEFI image...\n".spec_bytes()),
            installation@ == (InstallationView { stage: Stage::Writing, lba: 0, next_report: 0, failed: false }),
            installation_wf(installation@),
    {
        ui.write("Writing BlueOS hybrid BIOS/UEFI image...\n");
        Self { stage: Stage::Writing, lba: 0, next_report: 0, failed: false }
    }

    /// The disk work to do next.
    pub fn work(&self) -> (work: DiskWork)
        ensures
            work == spec_work(self@),
    {
        proof { use_type_invariant(self); }
        match self.stage {
            Stage::Writing => DiskWork::Copy { lba: self.lba, bytes: self.chunk() * 512 },
            Stage::Flushing => DiskWork::Flush,
            Stage::Verifying => DiskWork::Compare { lba: self.lba, bytes: self.chunk() * 512 },
            Stage::Finished => DiskWork::Done,
        }
    }

    fn chunk(&self) -> (blocks: usize)
        requires
            self.lba <= IMAGE_BLOCKS,
        ensures
            blocks == chunk_at(self.lba),
    {
        let left = (IMAGE_BLOCKS - self.lba) as usize;
        if left < CHUNK_BLOCKS {
            left
        } else {
            CHUNK_BLOCKS
        }
    }

    /// Ends the installation, writing its last lines.
    fn finish(&mut self, failed: bool, ui: &mut Ui)
        requires
            ui_wf(old(ui)@),
            !failed ==> old(self)@.lba == IMAGE_BLOCKS,
            old(self)@.lba <= IMAGE_BLOCKS,
            old(self)@.next_report <= IMAGE_BLOCKS + IMAGE_BLOCKS / 10,
        ensures
            ui_wf(final(ui)@),
            final(ui)@ == ui_write(old(ui)@, finish_text(failed)),
            final(self)@ == (InstallationView { stage: Stage::Finished, failed, ..old(self)@ }),
    {
        *self = Self { stage: Stage::Finished, lba: self.lba, next_report: self.next_report, failed };
        Self::write_finish(failed, ui);
    }

    fn write_finish(failed: bool, ui: &mut Ui)
        requires
            ui_wf(old(ui)@),
        ensures
            ui_wf(final(ui)@),
            final(ui)@ == ui_write(old(ui)@, finish_text(failed)),
    {
        if failed {
            ui.write("Installation did not complete safely. The target may be unusable.\n> ");
        } else {
            ui.write("INSTALLATION VERIFIED. Remove the USB drive and reboot.\n> ");
        }
    }

    /// Moves past the chunk at `lba`, reporting progress after `label`;
    /// at the end of the image the installation moves to `end`.
    fn advance(&mut self, label: &str, end: Stage, ui: &mut Ui)
        requires
            ui_wf(old(ui)@),
            installation_wf(old(self)@),
            old(self)@.stage == Stage::Writing || old(self)@.stage == Stage::Verifying,
            end == Stage::Flushing || end == Stage::Finished,
        ensures
            ui_wf(final(ui)@),
            final(ui)@ == ui_write(old(ui)@, progress_text(old(self)@, label.spec_bytes())),
            final(self)@ == if advanced(old(self)@).lba == IMAGE_BLOCKS {
                InstallationView { stage: end, ..advanced(old(self)@) }
            } else {
                advanced(old(self)@)
            },
    {
        let ghost start = ui@;
        let blocks = self.chunk();
        let lba = self.lba + blocks as u64;
        let reported = lba >= self.next_report;
        let next_report = if reported {
            lba + IMAGE_BLOCKS / 10
        } else {
            self.next_report
        };
        let stage = if lba >= IMAGE_BLOCKS {
            end
        } else {
            self.stage
        };
        *self = Self { stage, lba, next_report, failed: false };
        if reported {
            let ghost e = Seq::<u8>::empty();
            assert(ui@ == ui_write(start, e)) by {
                assert(start.serial + e =~= start.serial);
            }
            write_more(ui, label, Ghost(start), Ghost(e));
            let ghost w1 = e + label.spec_bytes();
            let percent = (self.lba * 100 / IMAGE_BLOCKS) as i64;
            proof { lemma_ui_write_concat(start, w1, signed_decimal(percent as int)); }
            ui.write_number(percent);
            let ghost w2 = w1 + signed_decimal(percent as int);
            write_more(ui, "%\n", Ghost(start), Ghost(w2));
            assert(w2 + "%\n".spec_bytes() =~= progress_text(old(self)@, label.spec_bytes()));
        } else {
            assert(ui@ == ui_write(start, Seq::empty())) by {
                assert(start.serial + Seq::<u8>::empty() =~= start.serial);
            }
        }
    }

    /// Records how the copy of the current chunk went: the statuses of the
    /// source read and of the target write.
    pub fn copied(&mut self, read: Status, write: Status, ui: &mut Ui)
        requires
            ui_wf(old(ui)@),
            old(self)@.stage == Stage::Writing,
        ensures
            ui_wf(final(ui)@),
            installation_wf(final(self)@),
            read >= error_bit() ==> final(self)@ == failed_at(old(self)@) && final(ui)@ == ui_write(
                old(ui)@,
                "Installer error: reading the live USB failed.\n".spec_bytes() + finish_text(true),
            ),
            read < error_bit() && write >= error_bit() ==> final(self)@ == failed_at(old(self)@)
                && final(ui)@ == ui_write(
                old(ui)@,
                "Installer error: writing the destination failed.\n".spec_bytes() + finish_text(
                    true,
                ),
            ),
            read < error_bit() && write < error_bit() ==> {
                let next = advanced(old(self)@);
                &&& final(self)@ == if next.lba == IMAGE_BLOCKS {
                    InstallationView { stage: Stage::Flushing, ..next }
                } else {
                    next
                }
                &&& final(ui)@ == ui_write(
                    old(ui)@,
                    progress_text(old(self)@, "Write progress: ".spec_bytes()),
                )
            },
    {
        proof { use_type_invariant(&*self); }
        if is_error(read) {
            self.fail("Installer error: reading the live USB failed.\n", ui);
            return;
        }
        if is_error(write) {
            self.fail("Installer error: writing the destination failed.\n", ui);
            return;
        }
        self.advance("Write progress: ", Stage::Flushing, ui);
    }

    /// Reports `message` and ends the installation as failed.
    fn fail(&mut self, message: &str, ui: &mut Ui)
        requires
            ui_wf(old(ui)@),
            old(self)@.lba <= IMAGE_BLOCKS,
            old(self)@.next_report <= IMAGE_BLOCKS + IMAGE_BLOCKS / 10,
        ensures
            ui_wf(final(ui)@),
            final(ui)@ == ui_write(old(ui)@, message.spec_bytes() + finish_text(true)),
            final(self)@ == failed_at(old(self)@),
    {
        let ghost start = ui@;
        ui.write(message);
        proof { lemma_ui_write_concat(start, message.spec_bytes(), finish_text(true)); }
        self.finish(true, ui);
    }

    /// Records how flushing the target went.
    pub fn flushed(&mut self, status: Status, ui: &mut Ui)
        requires
            ui_wf(old(ui)@),
            old(self)@.stage == Stage::Flushing,
        ensures
            ui_wf(final(ui)@),
            installation_wf(final(self)@),
            status >= error_bit() ==> final(self)@ == failed_at(old(self)@) && final(ui)@ == ui_write(
                old(ui)@,
                "Installer error: firmware could not flush the destination.\n".spec_bytes()
                    + finish_text(true),
            ),
            status < error_bit() ==> final(self)@ == (InstallationView {
                stage: Stage::Verifying,
                lba: 0,
                next_report: 0,
                failed: false,
            }) && final(ui)@ == ui_write(
                old(ui)@,
                "Write complete. Starting independent read-back verification...\n".spec_bytes(),
            ),
    {
        proof { use_type_invariant(&*self); }
        if is_error(status) {
            self.fail("Installer error: firmware could not flush the destination.\n", ui);
            return;
        }
        ui.write("Write complete. Starting independent read-back verification...\n");
        *self = Self { stage: Stage::Verifying, lba: 0, next_report: 0, failed: false };
    }

    /// Records how the read-back of the current chunk went: the statuses of
    /// the two reads and what they read.
    pub fn compared(
        &mut self,
        source_status: Status,
        target_status: Status,
        expected: &[u8],
        actual: &[u8],
        ui: &mut Ui,
    )
        requires
            ui_wf(old(ui)@),
            old(self)@.stage == Stage::Verifying,
        ensures
            ui_wf(final(ui)@),
            installation_wf(final(self)@),
            source_status >= error_bit() || target_status >= error_bit() ==> final(self)@
                == failed_at(old(self)@) && final(ui)@ == ui_write(
                old(ui)@,
                "Verification error: a disk read failed.\n".spec_bytes() + finish_text(true),
            ),
            source_status < error_bit() && target_status < error_bit() && expected@ != actual@
                ==> final(self)@ == failed_at(old(self)@) && final(ui)@ == ui_write(
                old(ui)@,
                "VERIFICATION FAILED at LBA ".spec_bytes() + signed_decimal(old(self)@.lba as int)
                    + ". Do not boot the destination.\n".spec_bytes() + finish_text(true),
            ),
            source_status < error_bit() && target_status < error_bit() && expected@ == actual@
                ==> {
                let next = advanced(old(self)@);
                let shown = progress_text(old(self)@, "Verify progress: ".spec_bytes());
                &&& next.lba == IMAGE_BLOCKS ==> final(self)@ == (InstallationView {
                    stage: Stage::Finished,
                    ..next
                }) && final(ui)@ == ui_write(old(ui)@, shown + finish_text(false))
                &&& next.lba < IMAGE_BLOCKS ==> final(self)@ == next && final(ui)@ == ui_write(
                    old(ui)@,
                    shown,
                )
            },
    {
        proof { use_type_invariant(&*self); }
        if is_error(source_status) || is_error(target_status) {
            self.fail("Verification error: a disk read failed.\n", ui);
            return;
        }
        if !same_bytes(expected, actual) {
            let ghost start = ui@;
            ui.write("VERIFICATION FAILED at LBA ");
            let ghost w1 = "VERIFICATION FAILED at LBA ".spec_bytes();
            let lba = self.lba as i64;
            proof { lemma_ui_write_concat(start, w1, signed_decimal(lba as int)); }
            ui.write_number(lba);
            let ghost w2 = w1 + signed_decimal(lba as int);
            proof { lemma_ui_write_concat(start, w2, ". Do not boot the destination.\n".spec_bytes()); }
            ui.write(". Do not boot the destination.\n");
            let ghost w3 = w2 + ". Do not boot the destination.\n".spec_bytes();
            proof { lemma_ui_write_concat(start, w3, finish_text(true)); }
            self.finish(true, ui);
            return;
        }
        let ghost start = ui@;
        self.advance("Verify progress: ", Stage::Finished, ui);
        if self.stage == Stage::Finished {
            proof {
                lemma_ui_write_concat(
                    start,
                    progress_text(old(self)@, "Verify progress: ".spec_bytes()),
                    finish_text(false),
                );
            }
            Self::write_finish(false, ui);
        }
    }
}

/// Whether two buffers hold the same bytes.
fn same_bytes(a: &[u8], b: &[u8]) -> (same: bool)
    ensures
        same == (a@ == b@),
{
    if a.len() != b.len() {
        return false;
    }
    let mut index: usize = 0;
    while index < a.len()
        invariant
            a@.len() == b@.len(),
            index <= a@.len(),
            forall|i: int| 0 <= i < index ==> a@[i] == b@[i],
        decreases a@.len() - index,
    {
        if a[index] != b[index] {
            return false;
        }
        index = index + 1;
    }
    assert(a@ =~= b@);
    true
}

} // verus!
