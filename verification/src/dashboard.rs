//! Figures shown on the kernel's text dashboard.
use vstd::prelude::*;
use vstd::string::*;
use crate::text::{dec, fmt_dec};
use crate::window::{Color, ticks_text, format_ticks, lemma_ticks_text_len};
use crate::framebuffer::{
    UefiGraphics, PixelWrite, write_all, lemma_write_all_append, rect_writes, border_box_writes, string_writes, frame_writes, string_fits, columns_writes,
    lemma_string_fits, color_panel, color_accent_blue, color_accent_purple, color_text_white, color_text_muted,
};
use crate::allocator::{PhysicalFrame, PageStatus};
use crate::kernel_core::SystemCore;
use crate::shell::{contains_seq, contains_text};
use crate::threads::{Thread, Scheduler, ThreadStatus};
use crate::framebuffer::{color_bg, color_accent_green};

verus! {

/// The simulated CPU load, in percent, of dashboard thread `thread_id` at
/// tick `ticks`: each thread oscillates around its own base load; the
/// user-mode thread (3) shows load only while it runs.
pub open spec fn thread_load(thread_id: usize, ticks: usize, has_user_thread: bool) -> int {
    if thread_id == 0 {
        6 + (ticks / 3) % 7
    } else if thread_id == 1 {
        18 + (ticks / 2) % 11
    } else if thread_id == 2 {
        12 + (ticks / 4) % 9
    } else if thread_id == 3 && has_user_thread {
        65 + ticks % 15
    } else {
        0
    }
}

/// The simulated CPU load of a dashboard thread.
pub fn get_thread_load(thread_id: usize, ticks: usize, has_user_thread: bool) -> (load: usize)
    ensures
        load == thread_load(thread_id, ticks, has_user_thread),
{
    match thread_id {
        0 => 6 + (ticks / 3) % 7,
        1 => 18 + (ticks / 2) % 11,
        2 => 12 + (ticks / 4) % 9,
        3 => {
            if has_user_thread {
                65 + ticks % 15
            } else {
                0
            }
        },
        _ => 0,
    }
}

/// The uptime line: `UPTIME: `, the seconds in decimal, then `s`.
pub fn format_uptime(secs: usize) -> (s: String)
    ensures
        s@ == "UPTIME: "@ + dec(secs as nat) + "s"@,
{
    let digits = fmt_dec(secs);
    String::from_str("UPTIME: ").concat(digits.as_str()).concat("s")
}


/// Red of a quarantined frame.
pub open spec fn color_red() -> Color {
    Color { r: 239, g: 68, b: 68 }
}

/// Amber of a frame that recovered from corrected flips.
pub open spec fn color_amber() -> Color {
    Color { r: 245, g: 158, b: 11 }
}

/// Green frame of a free page.
pub open spec fn color_free() -> Color {
    Color { r: 16, g: 124, b: 65 }
}

/// Colour of a frame owned by process `pid`.
pub open spec fn owner_color(pid: u32) -> Color {
    if pid == 101 {
        color_accent_blue()
    } else if pid == 102 {
        color_accent_purple()
    } else if pid == 103 {
        Color { r: 32, g: 223, b: 127 }
    } else {
        Color { r: 236, g: 72, b: 153 }
    }
}

/// Fill of grid cell `idx`: red when its frame is quarantined, amber when
/// it recovered, the owner's colour when allocated, none when free.
pub open spec fn grid_fill(frames: Seq<PhysicalFrame>, map: Seq<Option<u32>>, idx: int) -> Option<Color> {
    if idx < frames.len() && frames[idx].status == PageStatus::Quarantined {
        Some(color_red())
    } else if idx < frames.len() && frames[idx].status is Recovered {
        Some(color_amber())
    } else if idx < map.len() && map[idx] is Some {
        Some(owner_color(map[idx]->0))
    } else {
        None
    }
}

/// The writes of grid cell `idx`, 16 pixels square at column `idx % 8` and
/// row `idx / 8` of the grid, 22 pixels apart: filled, or a free frame.
pub open spec fn grid_cell_writes(frames: Seq<PhysicalFrame>, map: Seq<Option<u32>>, idx: int) -> Seq<PixelWrite> {
    let x = 60 + (idx % 8) * 22;
    let y = 310 + (idx / 8) * 22;
    match grid_fill(frames, map, idx) {
        Some(c) => rect_writes(x, y, 16, 16, c),
        None => border_box_writes(x, y, 16, 16, color_free(), color_panel()),
    }
}

/// The writes of the first `n` grid cells.
pub open spec fn grid_cells_writes(frames: Seq<PhysicalFrame>, map: Seq<Option<u32>>, n: nat) -> Seq<PixelWrite>
    decreases n,
{
    if n == 0 {
        Seq::empty()
    } else {
        grid_cells_writes(frames, map, (n - 1) as nat) + grid_cell_writes(frames, map, n - 1)
    }
}

/// Number of allocated entries of the allocation map.
pub open spec fn owned_count(map: Seq<Option<u32>>) -> nat
    decreases map.len(),
{
    if map.len() == 0 {
        0
    } else {
        owned_count(map.drop_last()) + if map.last() is Some {
            1nat
        } else {
            0nat
        }
    }
}

/// The writes of the grid's legend.
pub open spec fn legend_writes(w: int) -> Seq<PixelWrite> {
    border_box_writes(260, 310, 12, 12, color_free(), color_panel()) + string_writes(
        280,
        312,
        "Free / Idle Page Frame"@,
        w,
        color_text_muted(),
        None,
        1,
    ) + rect_writes(260, 330, 12, 12, color_accent_blue()) + string_writes(
        280,
        332,
        "Telemetry / Life Support"@,
        w,
        color_text_white(),
        None,
        1,
    ) + rect_writes(260, 350, 12, 12, color_accent_purple()) + string_writes(
        280,
        352,
        "Critical Orbital TMR Task"@,
        w,
        color_text_white(),
        None,
        1,
    ) + rect_writes(260, 370, 12, 12, color_amber()) + string_writes(
        280,
        372,
        "Self-Healed Page (ECC Ok)"@,
        w,
        color_amber(),
        None,
        1,
    ) + rect_writes(260, 390, 12, 12, color_red()) + string_writes(
        280,
        392,
        "Quarantined (Hard Fault)"@,
        w,
        color_red(),
        None,
        1,
    )
}

/// The writes of the grid's three statistics lines.
pub open spec fn grid_stats_writes(w: int, owned: nat, quarantined: nat, healed: nat, sweeps: nat) -> Seq<PixelWrite> {
    string_writes(
        260,
        420,
        "Allocated  : "@ + ticks_text(owned) + " / 64 Pages"@,
        w,
        color_text_white(),
        None,
        1,
    ) + string_writes(
        260,
        435,
        "Quarantine : "@ + ticks_text(quarantined) + " | Healed: "@ + ticks_text(healed),
        w,
        color_text_white(),
        None,
        1,
    ) + string_writes(260, 450, "Rad Sweeps : "@ + ticks_text(sweeps) + " (Active Sweep)"@, w, color_text_muted(), None, 1)
}

/// The writes of the memory grid panel: its area cleared (the whole panel
/// for the layout, the statistics only otherwise), the 64 cells, the
/// legend for the layout, then the statistics.
pub open spec fn memory_grid_writes(
    w: int,
    frames: Seq<PhysicalFrame>,
    map: Seq<Option<u32>>,
    quarantined: nat,
    healed: nat,
    sweeps: nat,
    is_layout: bool,
) -> Seq<PixelWrite> {
    (if is_layout {
        rect_writes(50, 305, 565, 210, color_panel())
    } else {
        rect_writes(260, 420, 320, 50, color_panel())
    }) + grid_cells_writes(frames, map, 64) + (if is_layout {
        legend_writes(w)
    } else {
        Seq::empty()
    }) + grid_stats_writes(w, owned_count(map), quarantined, healed, sweeps)
}

/// The frames shown on the grid: the allocator's, or none without a core.
pub open spec fn grid_frames(core: Option<&SystemCore>) -> Seq<PhysicalFrame> {
    match core {
        Some(c) => c.allocator.frames@,
        None => Seq::empty(),
    }
}

/// The allocation map shown on the grid: the allocator's, or 64 free
/// entries without a core.
pub open spec fn grid_map(core: Option<&SystemCore>) -> Seq<Option<u32>> {
    match core {
        Some(c) => c.allocator.allocation_map@,
        None => Seq::new(64, |i: int| None),
    }
}

/// Quarantined pages counted by the core, or 0 without one.
pub open spec fn core_quarantined(core: Option<&SystemCore>) -> nat {
    match core {
        Some(c) => c.pages_quarantined as nat,
        None => 0,
    }
}

/// Single-bit corrections counted by the core, or 0 without one.
pub open spec fn core_healed(core: Option<&SystemCore>) -> nat {
    match core {
        Some(c) => c.ecc_single_bit_corrections as nat,
        None => 0,
    }
}

/// Scrubber sweeps counted by the core, or 0 without one.
pub open spec fn core_sweeps(core: Option<&SystemCore>) -> nat {
    match core {
        Some(c) => c.scrubber_sweeps as nat,
        None => 0,
    }
}

/// Redundant computations counted by the core, or 0 without one.
pub open spec fn core_tmr_ops(core: Option<&SystemCore>) -> nat {
    match core {
        Some(c) => c.critical_tmr_ops as nat,
        None => 0,
    }
}

/// Voter corrections counted by the core, or 0 without one.
pub open spec fn core_tmr_corrections(core: Option<&SystemCore>) -> nat {
    match core {
        Some(c) => c.tmr_voter_corrections as nat,
        None => 0,
    }
}

/// Number of allocated entries of `map`.
pub(crate) fn count_owned(map: &Vec<Option<u32>>) -> (n: usize)
    ensures
        n == owned_count(map@),
{
    let mut n: usize = 0;
    let mut i: usize = 0;
    while i < map.len()
        invariant
            i <= map@.len(),
            n == owned_count(map@.subrange(0, i as int)),
            n <= i,
        decreases map@.len() - i,
    {
        proof {
            assert(map@.subrange(0, i + 1).drop_last() =~= map@.subrange(0, i as int));
        }
        if map[i].is_some() {
            n = n + 1;
        }
        i = i + 1;
    }
    assert(map@.subrange(0, map@.len() as int) =~= map@);
    n
}

impl UefiGraphics {
    /// Draws the legend of the memory grid.
    fn draw_grid_legend(&mut self)
        requires
            old(self).wf(),
        ensures
            final(self).wf(),
            final(self).canvas() == write_all(
                old(self).canvas(),
                old(self).width as int,
                old(self).height as int,
                legend_writes(old(self).width as int),
            ),
            final(self).same_device(*old(self)),
            final(self).same_mouse(*old(self)),
    {
        let ghost cv0 = self.canvas();
        let ghost w = self.width as int;
        let ghost h = self.height as int;
        let muted = Color { r: 107, g: 114, b: 128 };
        let white = Color { r: 243, g: 244, b: 246 };
        let amber = Color { r: 245, g: 158, b: 11 };
        let red = Color { r: 239, g: 68, b: 68 };
        proof {
            reveal_strlit("Free / Idle Page Frame");
            reveal_strlit("Telemetry / Life Support");
            reveal_strlit("Critical Orbital TMR Task");
            reveal_strlit("Self-Healed Page (ECC Ok)");
            reveal_strlit("Quarantined (Hard Fault)");
            lemma_string_fits(280, 312, "Free / Idle Page Frame"@, w, None, 1);
            lemma_string_fits(280, 332, "Telemetry / Life Support"@, w, None, 1);
            lemma_string_fits(280, 352, "Critical Orbital TMR Task"@, w, None, 1);
            lemma_string_fits(280, 372, "Self-Healed Page (ECC Ok)"@, w, None, 1);
            lemma_string_fits(280, 392, "Quarantined (Hard Fault)"@, w, None, 1);
        }
        self.draw_border_rect(260, 310, 12, 12, Color { r: 16, g: 124, b: 65 }, Color { r: 24, g: 28, b: 34 });
        let ghost mut done = border_box_writes(260, 310, 12, 12, color_free(), color_panel());
        self.draw_string(280, 312, "Free / Idle Page Frame", muted, None, 1);
        proof {
            let ws = string_writes(280, 312, "Free / Idle Page Frame"@, w, color_text_muted(), None, 1);
            lemma_write_all_append(cv0, w, h, done, ws);
            done = done + ws;
        }
        self.draw_rect(260, 330, 12, 12, Color { r: 0, g: 150, b: 255 });
        proof {
            let ws = rect_writes(260, 330, 12, 12, color_accent_blue());
            lemma_write_all_append(cv0, w, h, done, ws);
            done = done + ws;
        }
        self.draw_string(280, 332, "Telemetry / Life Support", white, None, 1);
        proof {
            let ws = string_writes(280, 332, "Telemetry / Life Support"@, w, color_text_white(), None, 1);
            lemma_write_all_append(cv0, w, h, done, ws);
            done = done + ws;
        }
        self.draw_rect(260, 350, 12, 12, Color { r: 147, g: 51, b: 234 });
        proof {
            let ws = rect_writes(260, 350, 12, 12, color_accent_purple());
            lemma_write_all_append(cv0, w, h, done, ws);
            done = done + ws;
        }
        self.draw_string(280, 352, "Critical Orbital TMR Task", white, None, 1);
        proof {
            let ws = string_writes(280, 352, "Critical Orbital TMR Task"@, w, color_text_white(), None, 1);
            lemma_write_all_append(cv0, w, h, done, ws);
            done = done + ws;
        }
        self.draw_rect(260, 370, 12, 12, amber);
        proof {
            let ws = rect_writes(260, 370, 12, 12, color_amber());
            lemma_write_all_append(cv0, w, h, done, ws);
            done = done + ws;
        }
        self.draw_string(280, 372, "Self-Healed Page (ECC Ok)", amber, None, 1);
        proof {
            let ws = string_writes(280, 372, "Self-Healed Page (ECC Ok)"@, w, color_amber(), None, 1);
            lemma_write_all_append(cv0, w, h, done, ws);
            done = done + ws;
        }
        self.draw_rect(260, 390, 12, 12, red);
        proof {
            let ws = rect_writes(260, 390, 12, 12, color_red());
            lemma_write_all_append(cv0, w, h, done, ws);
            done = done + ws;
        }
        self.draw_string(280, 392, "Quarantined (Hard Fault)", red, None, 1);
        proof {
            let ws = string_writes(280, 392, "Quarantined (Hard Fault)"@, w, color_red(), None, 1);
            lemma_write_all_append(cv0, w, h, done, ws);
            done = done + ws;
        }
    }
}

impl UefiGraphics {
    /// Draws the 8 by 8 map of page frames and its statistics; with
    /// `is_layout` the whole panel with its legend, otherwise only what
    /// changes. See `memory_grid_writes`.
    pub fn draw_dashboard_memory_grid(&mut self, core: Option<&SystemCore>, is_layout: bool)
        requires
            old(self).wf(),
        ensures
            final(self).wf(),
            final(self).canvas() == write_all(
                old(self).canvas(),
                old(self).width as int,
                old(self).height as int,
                memory_grid_writes(
                    old(self).width as int,
                    grid_frames(core),
                    grid_map(core),
                    core_quarantined(core),
                    core_healed(core),
                    core_sweeps(core),
                    is_layout,
                ),
            ),
            final(self).same_device(*old(self)),
            final(self).same_mouse(*old(self)),
    {
        let ghost cv0 = self.canvas();
        let ghost w = self.width as int;
        let ghost h = self.height as int;
        let panel = Color { r: 24, g: 28, b: 34 };
        if is_layout {
            self.draw_rect(50, 305, 565, 210, panel);
        } else {
            self.draw_rect(260, 420, 320, 50, panel);
        }
        let ghost clear_ws = if is_layout {
            rect_writes(50, 305, 565, 210, color_panel())
        } else {
            rect_writes(260, 420, 320, 50, color_panel())
        };
        let no_frames: Vec<PhysicalFrame> = Vec::new();
        let mut no_owners: Vec<Option<u32>> = Vec::new();
        let mut k: usize = 0;
        while k < 64
            invariant
                k <= 64,
                no_owners@ == Seq::new(k as nat, |i: int| None::<u32>),
            decreases 64 - k,
        {
            no_owners.push(None);
            k = k + 1;
            assert(no_owners@ =~= Seq::new(k as nat, |i: int| None::<u32>));
        }
        let (alloc_map, frames): (&Vec<Option<u32>>, &Vec<PhysicalFrame>) = match core {
            Some(c) => (&c.allocator.allocation_map, &c.allocator.frames),
            None => (&no_owners, &no_frames),
        };
        assert(alloc_map@ == grid_map(core));
        assert(frames@ == grid_frames(core));
        let ghost fr = frames@;
        let ghost mp = alloc_map@;
        proof {
            assert(clear_ws + grid_cells_writes(fr, mp, 0) =~= clear_ws);
        }
        let mut r: usize = 0;
        while r < 8
            invariant
                self.wf(),
                self.same_device(*old(self)),
                self.same_mouse(*old(self)),
                w == self.width && h == self.height,
                r <= 8,
                fr == frames@ && mp == alloc_map@,
                self.canvas() == write_all(cv0, w, h, clear_ws + grid_cells_writes(fr, mp, (r * 8) as nat)),
            decreases 8 - r,
        {
            let mut c: usize = 0;
            while c < 8
                invariant
                    self.wf(),
                    self.same_device(*old(self)),
                    self.same_mouse(*old(self)),
                    w == self.width && h == self.height,
                    r < 8,
                    c <= 8,
                    fr == frames@ && mp == alloc_map@,
                    self.canvas() == write_all(cv0, w, h, clear_ws + grid_cells_writes(fr, mp, (r * 8 + c) as nat)),
                decreases 8 - c,
            {
                let idx = r * 8 + c;
                let cell_x = 60 + c * (16 + 6);
                let cell_y = 310 + r * (16 + 6);
                proof {
                    assert(idx / 8 == r as int && idx % 8 == c as int) by (nonlinear_arith)
                        requires
                            idx == r * 8 + c,
                            c < 8,
                    ;
                }
                let has_frame = idx < frames.len();
                let is_quarantined = has_frame && frames[idx].status == PageStatus::Quarantined;
                let is_recovered = has_frame && matches!(frames[idx].status, PageStatus::Recovered { .. });
                let pid_opt = if idx < alloc_map.len() {
                    alloc_map[idx]
                } else {
                    None
                };
                let ghost before = clear_ws + grid_cells_writes(fr, mp, idx as nat);
                let ghost cell = grid_cell_writes(fr, mp, idx as int);
                assert(cell_x == 60 + (idx as int % 8) * 22 && cell_y == 310 + (idx as int / 8) * 22);
                if is_quarantined {
                    self.draw_rect(cell_x, cell_y, 16, 16, Color { r: 239, g: 68, b: 68 });
                    assert(cell == rect_writes(cell_x as int, cell_y as int, 16, 16, color_red()));
                } else if is_recovered {
                    self.draw_rect(cell_x, cell_y, 16, 16, Color { r: 245, g: 158, b: 11 });
                    assert(cell == rect_writes(cell_x as int, cell_y as int, 16, 16, color_amber()));
                } else if let Some(pid) = pid_opt {
                    let color = match pid {
                        101 => Color { r: 0, g: 150, b: 255 },
                        102 => Color { r: 147, g: 51, b: 234 },
                        103 => Color { r: 32, g: 223, b: 127 },
                        _ => Color { r: 236, g: 72, b: 153 },
                    };
                    self.draw_rect(cell_x, cell_y, 16, 16, color);
                    assert(cell == rect_writes(cell_x as int, cell_y as int, 16, 16, owner_color(pid)));
                } else {
                    self.draw_border_rect(
                        cell_x,
                        cell_y,
                        16,
                        16,
                        Color { r: 16, g: 124, b: 65 },
                        Color { r: 24, g: 28, b: 34 },
                    );
                    assert(cell == border_box_writes(cell_x as int, cell_y as int, 16, 16, color_free(), color_panel()));
                }
                proof {
                    lemma_write_all_append(cv0, w, h, before, cell);
                    assert(clear_ws + grid_cells_writes(fr, mp, (idx + 1) as nat) =~= before + cell);
                }
                c = c + 1;
            }
            r = r + 1;
        }
        let ghost done = clear_ws + grid_cells_writes(fr, mp, 64);
        if is_layout {
            self.draw_grid_legend();
            proof {
                lemma_write_all_append(cv0, w, h, done, legend_writes(w));
            }
        } else {
            assert(done + Seq::<PixelWrite>::empty() =~= done);
        }
        let ghost done2 = done + (if is_layout {
            legend_writes(w)
        } else {
            Seq::empty()
        });
        let allocated_count = count_owned(alloc_map);
        let quarantined_count = match core {
            Some(c) => c.pages_quarantined,
            None => 0,
        };
        let corrected_count = match core {
            Some(c) => c.ecc_single_bit_corrections,
            None => 0,
        };
        let scrubber_sweeps = match core {
            Some(c) => c.scrubber_sweeps,
            None => 0,
        };
        self.draw_grid_stats(allocated_count, quarantined_count, corrected_count, scrubber_sweeps);
        proof {
            lemma_write_all_append(
                cv0,
                w,
                h,
                done2,
                grid_stats_writes(
                    w,
                    allocated_count as nat,
                    quarantined_count as nat,
                    corrected_count as nat,
                    scrubber_sweeps as nat,
                ),
            );
        }
    }

    /// Draws the three statistics lines of the memory grid.
    fn draw_grid_stats(&mut self, allocated: usize, quarantined: usize, corrected: usize, sweeps: usize)
        requires
            old(self).wf(),
        ensures
            final(self).wf(),
            final(self).canvas() == write_all(
                old(self).canvas(),
                old(self).width as int,
                old(self).height as int,
                grid_stats_writes(
                    old(self).width as int,
                    allocated as nat,
                    quarantined as nat,
                    corrected as nat,
                    sweeps as nat,
                ),
            ),
            final(self).same_device(*old(self)),
            final(self).same_mouse(*old(self)),
    {
        let ghost cv0 = self.canvas();
        let ghost w = self.width as int;
        let ghost h = self.height as int;
        let white = Color { r: 243, g: 244, b: 246 };
        let muted = Color { r: 107, g: 114, b: 128 };
        proof {
            reveal_strlit("Allocated  : ");
            reveal_strlit(" / 64 Pages");
            reveal_strlit("Quarantine : ");
            reveal_strlit(" | Healed: ");
            reveal_strlit("Rad Sweeps : ");
            reveal_strlit(" (Active Sweep)");
            lemma_ticks_text_len(allocated as nat);
            lemma_ticks_text_len(quarantined as nat);
            lemma_ticks_text_len(corrected as nat);
            lemma_ticks_text_len(sweeps as nat);
        }
        let line1 = String::from_str("Allocated  : ").concat(format_ticks(allocated).as_str()).concat(" / 64 Pages");
        proof {
            lemma_string_fits(260, 420, line1@, w, None, 1);
        }
        self.draw_string(260, 420, line1.as_str(), white, None, 1);
        let ghost ws1 = string_writes(260, 420, line1@, w, color_text_white(), None, 1);
        let quar_str = format_ticks(quarantined);
        let corr_str = format_ticks(corrected);
        let line2 = String::from_str("Quarantine : ").concat(quar_str.as_str()).concat(" | Healed: ").concat(
            corr_str.as_str(),
        );
        proof {
            lemma_string_fits(260, 435, line2@, w, None, 1);
        }
        self.draw_string(260, 435, line2.as_str(), white, None, 1);
        let ghost ws2 = string_writes(260, 435, line2@, w, color_text_white(), None, 1);
        proof {
            lemma_write_all_append(cv0, w, h, ws1, ws2);
        }
        let line3 = String::from_str("Rad Sweeps : ").concat(format_ticks(sweeps).as_str()).concat(" (Active Sweep)");
        proof {
            lemma_string_fits(260, 450, line3@, w, None, 1);
        }
        self.draw_string(260, 450, line3.as_str(), muted, None, 1);
        proof {
            let ws3 = string_writes(260, 450, line3@, w, color_text_muted(), None, 1);
            lemma_write_all_append(cv0, w, h, ws1 + ws2, ws3);
        }
    }
}

/// Pink of the user-mode payload.
pub open spec fn color_pink() -> Color {
    Color { r: 236, g: 72, b: 153 }
}

/// Whether dashboard row `i` shows the user-mode payload thread.
pub open spec fn has_user(threads: Seq<Thread>) -> bool {
    threads.len() > 3
}

/// Name shown on dashboard row `i`.
pub open spec fn row_name(threads: Seq<Thread>, i: int) -> Seq<char> {
    if i == 0 {
        "T0: KERNEL SHELL"@
    } else if i == 1 {
        "T1: MEM SCRUBBER"@
    } else if i == 2 {
        "T2: SYS DIAGS   "@
    } else if has_user(threads) {
        "T3: USER PAYLOAD"@
    } else {
        "T3: IDLE/OFFLINE"@
    }
}

/// Whether the thread of row `i` is running.
pub open spec fn row_running(threads: Seq<Thread>, i: int) -> bool {
    i < threads.len() && threads[i].status == ThreadStatus::Running
}

/// Whether row `i` is the absent user-mode thread.
pub open spec fn row_offline(threads: Seq<Thread>, i: int) -> bool {
    i == 3 && !has_user(threads)
}

/// Status label of row `i`.
pub open spec fn row_status(threads: Seq<Thread>, i: int) -> Seq<char> {
    if row_offline(threads, i) {
        "OFFLINE"@
    } else if row_running(threads, i) {
        "RUNNING"@
    } else {
        "READY  "@
    }
}

/// Colour of the status label of row `i`.
pub open spec fn row_status_color(threads: Seq<Thread>, i: int) -> Color {
    if row_offline(threads, i) {
        color_text_muted()
    } else if row_running(threads, i) {
        color_accent_green()
    } else {
        color_accent_blue()
    }
}

/// Colour of the load bar of row `i`.
pub open spec fn row_bar_color(i: int) -> Color {
    if i == 0 {
        color_accent_blue()
    } else if i == 1 {
        color_accent_green()
    } else if i == 2 {
        color_accent_purple()
    } else {
        color_pink()
    }
}

/// Stack label of row `i`: the boot thread's, the low 16 bits of a saved
/// stack pointer, or dashes without a thread.
pub open spec fn row_stack(threads: Seq<Thread>, i: int) -> Seq<char> {
    if i < threads.len() {
        if i == 0 {
            "Boot RSP"@
        } else {
            "rsp:"@ + ticks_text((threads[i].rsp & 0xFFFF) as nat)
        }
    } else {
        "--------"@
    }
}

/// The writes of dashboard row `i`, 35 pixels below the previous one:
/// name (layout) or cleared status (update), status, load bar track and
/// fill, load percentage and stack label, each value area cleared first on
/// an update.
pub open spec fn sched_row_writes(w: int, threads: Seq<Thread>, ticks: usize, is_layout: bool, i: int) -> Seq<
    PixelWrite,
> {
    let y = 310 + i * 35;
    let load = thread_load(i as usize, ticks, has_user(threads));
    (if is_layout {
        string_writes(675, y, row_name(threads, i), w, color_text_white(), None, 1)
    } else {
        rect_writes(830, y, 70, 12, color_panel())
    }) + string_writes(830, y, row_status(threads, i), w, row_status_color(threads, i), None, 1) + rect_writes(
        910,
        y + 2,
        120,
        6,
        color_bg(),
    ) + (if load > 0 {
        rect_writes(910, y + 2, (load * 120 / 100) as nat, 6, row_bar_color(i))
    } else {
        Seq::empty()
    }) + (if is_layout {
        Seq::empty()
    } else {
        rect_writes(1045, y, 40, 12, color_panel())
    }) + string_writes(1045, y, ticks_text(load as nat) + "%"@, w, color_text_white(), None, 1) + (if is_layout {
        Seq::empty()
    } else {
        rect_writes(1095, y, 80, 12, color_panel())
    }) + string_writes(1095, y, row_stack(threads, i), w, color_text_muted(), None, 1)
}

/// The writes of the first `n` dashboard rows.
pub open spec fn sched_rows_writes(w: int, threads: Seq<Thread>, ticks: usize, is_layout: bool, n: nat) -> Seq<
    PixelWrite,
>
    decreases n,
{
    if n == 0 {
        Seq::empty()
    } else {
        sched_rows_writes(w, threads, ticks, is_layout, (n - 1) as nat) + sched_row_writes(
            w,
            threads,
            ticks,
            is_layout,
            n - 1,
        )
    }
}

/// The writes of the scheduler panel: its area cleared (the whole panel for
/// the layout, the voter line otherwise), the four thread rows, the voter
/// line and, for the layout, the health line.
pub open spec fn sched_metrics_writes(
    w: int,
    threads: Seq<Thread>,
    ticks: usize,
    tmr_ops: nat,
    tmr_corrections: nat,
    is_layout: bool,
) -> Seq<PixelWrite> {
    (if is_layout {
        rect_writes(665, 305, 565, 210, color_panel())
    } else {
        rect_writes(675, 460, 545, 16, color_panel())
    }) + sched_rows_writes(w, threads, ticks, is_layout, 4) + string_writes(
        675,
        465,
        "TMR Ops    : "@ + ticks_text(tmr_ops) + " | Voter Corrects: "@ + ticks_text(tmr_corrections),
        w,
        color_text_white(),
        None,
        1,
    ) + (if is_layout {
        string_writes(675, 480, "Voter Health Status: 100.00% (Triple Redundant)"@, w, color_accent_green(), None, 1)
    } else {
        Seq::empty()
    })
}

impl UefiGraphics {
    /// Draws dashboard row `i`; see `sched_row_writes`.
    fn draw_sched_row(&mut self, sched: &Scheduler, i: usize, ticks: usize, is_layout: bool)
        requires
            old(self).wf(),
            i < 4,
        ensures
            final(self).wf(),
            final(self).canvas() == write_all(
                old(self).canvas(),
                old(self).width as int,
                old(self).height as int,
                sched_row_writes(old(self).width as int, sched.threads@, ticks, is_layout, i as int),
            ),
            final(self).same_device(*old(self)),
            final(self).same_mouse(*old(self)),
    {
        let ghost cv0 = self.canvas();
        let ghost w = self.width as int;
        let ghost h = self.height as int;
        let ghost threads = sched.threads@;
        let panel = Color { r: 24, g: 28, b: 34 };
        let white = Color { r: 243, g: 244, b: 246 };
        let muted = Color { r: 107, g: 114, b: 128 };
        let green = Color { r: 32, g: 223, b: 127 };
        let blue = Color { r: 0, g: 150, b: 255 };
        proof {
            reveal_strlit("T0: KERNEL SHELL");
            reveal_strlit("T1: MEM SCRUBBER");
            reveal_strlit("T2: SYS DIAGS   ");
            reveal_strlit("T3: USER PAYLOAD");
            reveal_strlit("T3: IDLE/OFFLINE");
            reveal_strlit("OFFLINE");
            reveal_strlit("RUNNING");
            reveal_strlit("READY  ");
            reveal_strlit("%");
            reveal_strlit("Boot RSP");
            reveal_strlit("rsp:");
            reveal_strlit("--------");
        }
        let n = sched.threads.len();
        let has_user_thread = n > 3;
        let y = 310 + i * 35;
        let running = i < n && sched.threads[i].status == ThreadStatus::Running;
        let load = get_thread_load(i, ticks, has_user_thread);
        let (name, status_str, status_color): (&str, &str, Color) = if i == 3 && !has_user_thread {
            ("T3: IDLE/OFFLINE", "OFFLINE", muted)
        } else {
            let name = if i == 0 {
                "T0: KERNEL SHELL"
            } else if i == 1 {
                "T1: MEM SCRUBBER"
            } else if i == 2 {
                "T2: SYS DIAGS   "
            } else {
                "T3: USER PAYLOAD"
            };
            if running {
                (name, "RUNNING", green)
            } else {
                (name, "READY  ", blue)
            }
        };
        assert(name@ == row_name(threads, i as int));
        assert(status_str@ == row_status(threads, i as int));
        assert(status_color == row_status_color(threads, i as int));
        let ghost mut done: Seq<PixelWrite> = Seq::empty();
        if is_layout {
            proof {
                lemma_string_fits(675, y as int, name@, w, None, 1);
            }
            self.draw_string(675, y, name, white, None, 1);
            proof {
                done = string_writes(675, y as int, name@, w, color_text_white(), None, 1);
            }
        } else {
            self.draw_rect(830, y, 70, 12, panel);
            proof {
                done = rect_writes(830, y as int, 70, 12, color_panel());
            }
        }
        proof {
            lemma_string_fits(830, y as int, status_str@, w, None, 1);
        }
        self.draw_string(830, y, status_str, status_color, None, 1);
        proof {
            let ws = string_writes(830, y as int, status_str@, w, status_color, None, 1);
            lemma_write_all_append(cv0, w, h, done, ws);
            done = done + ws;
        }
        let bar_x: usize = 910;
        let bar_y = y + 2;
        let bar_w: usize = 120;
        let bar_h: usize = 6;
        self.draw_rect(bar_x, bar_y, bar_w, bar_h, Color { r: 13, g: 15, b: 18 });
        proof {
            let ws = rect_writes(910, y + 2, 120, 6, color_bg());
            lemma_write_all_append(cv0, w, h, done, ws);
            done = done + ws;
        }
        if load > 0 {
            let fill_w = (load * bar_w) / 100;
            let fill_color = match i {
                0 => Color { r: 0, g: 150, b: 255 },
                1 => Color { r: 32, g: 223, b: 127 },
                2 => Color { r: 147, g: 51, b: 234 },
                _ => Color { r: 236, g: 72, b: 153 },
            };
            self.draw_rect(bar_x, bar_y, fill_w, bar_h, fill_color);
            proof {
                let ws = rect_writes(910, y + 2, (load * 120 / 100) as nat, 6, row_bar_color(i as int));
                lemma_write_all_append(cv0, w, h, done, ws);
                done = done + ws;
            }
        } else {
            proof {
                assert(done + Seq::<PixelWrite>::empty() =~= done);
                done = done + Seq::<PixelWrite>::empty();
            }
        }
        if !is_layout {
            self.draw_rect(1045, y, 40, 12, panel);
            proof {
                let ws = rect_writes(1045, y as int, 40, 12, color_panel());
                lemma_write_all_append(cv0, w, h, done, ws);
                done = done + ws;
            }
        } else {
            proof {
                assert(done + Seq::<PixelWrite>::empty() =~= done);
                done = done + Seq::<PixelWrite>::empty();
            }
        }
        let load_text = format_ticks(load).concat("%");
        proof {
            lemma_ticks_text_len(load as nat);
            lemma_string_fits(1045, y as int, load_text@, w, None, 1);
        }
        self.draw_string(1045, y, load_text.as_str(), white, None, 1);
        proof {
            let ws = string_writes(1045, y as int, load_text@, w, color_text_white(), None, 1);
            lemma_write_all_append(cv0, w, h, done, ws);
            done = done + ws;
        }
        if !is_layout {
            self.draw_rect(1095, y, 80, 12, panel);
            proof {
                let ws = rect_writes(1095, y as int, 80, 12, color_panel());
                lemma_write_all_append(cv0, w, h, done, ws);
                done = done + ws;
            }
        } else {
            proof {
                assert(done + Seq::<PixelWrite>::empty() =~= done);
                done = done + Seq::<PixelWrite>::empty();
            }
        }
        if i < n {
            if i == 0 {
                proof {
                    lemma_string_fits(1095, y as int, "Boot RSP"@, w, None, 1);
                }
                self.draw_string(1095, y, "Boot RSP", muted, None, 1);
            } else {
                let rsp_val = sched.threads[i].rsp;
                assert(rsp_val & 0xFFFF <= 0xFFFF) by (bit_vector);
                let rsp_short = (rsp_val & 0xFFFF) as usize;
                let rsp_text = String::from_str("rsp:").concat(format_ticks(rsp_short).as_str());
                proof {
                    lemma_ticks_text_len(rsp_short as nat);
                    lemma_string_fits(1095, y as int, rsp_text@, w, None, 1);
                }
                self.draw_string(1095, y, rsp_text.as_str(), muted, None, 1);
                assert(rsp_text@ == row_stack(threads, i as int));
            }
        } else {
            proof {
                lemma_string_fits(1095, y as int, "--------"@, w, None, 1);
            }
            self.draw_string(1095, y, "--------", muted, None, 1);
        }
        proof {
            let ws = string_writes(1095, y as int, row_stack(threads, i as int), w, color_text_muted(), None, 1);
            lemma_write_all_append(cv0, w, h, done, ws);
            assert(done + ws == sched_row_writes(w, threads, ticks, is_layout, i as int));
        }
    }
}

impl UefiGraphics {
    /// Draws the scheduler panel from the threads of `sched`: with
    /// `is_layout` the whole panel, otherwise only what changes. See
    /// `sched_metrics_writes`.
    pub fn draw_dashboard_scheduler_metrics(
        &mut self,
        core: Option<&SystemCore>,
        sched: &Scheduler,
        ticks: usize,
        is_layout: bool,
    )
        requires
            old(self).wf(),
        ensures
            final(self).wf(),
            final(self).canvas() == write_all(
                old(self).canvas(),
                old(self).width as int,
                old(self).height as int,
                sched_metrics_writes(
                    old(self).width as int,
                    sched.threads@,
                    ticks,
                    core_tmr_ops(core),
                    core_tmr_corrections(core),
                    is_layout,
                ),
            ),
            final(self).same_device(*old(self)),
            final(self).same_mouse(*old(self)),
    {
        let ghost cv0 = self.canvas();
        let ghost w = self.width as int;
        let ghost h = self.height as int;
        let ghost threads = sched.threads@;
        if is_layout {
            self.draw_rect(665, 305, 565, 210, Color { r: 24, g: 28, b: 34 });
        } else {
            self.draw_rect(675, 460, 545, 16, Color { r: 24, g: 28, b: 34 });
        }
        let ghost clear_ws = if is_layout {
            rect_writes(665, 305, 565, 210, color_panel())
        } else {
            rect_writes(675, 460, 545, 16, color_panel())
        };
        proof {
            assert(clear_ws + sched_rows_writes(w, threads, ticks, is_layout, 0) =~= clear_ws);
        }
        let mut i: usize = 0;
        while i < 4
            invariant
                self.wf(),
                self.same_device(*old(self)),
                self.same_mouse(*old(self)),
                w == self.width && h == self.height,
                i <= 4,
                threads == sched.threads@,
                self.canvas() == write_all(cv0, w, h, clear_ws + sched_rows_writes(w, threads, ticks, is_layout, i as nat)),
            decreases 4 - i,
        {
            let ghost before = clear_ws + sched_rows_writes(w, threads, ticks, is_layout, i as nat);
            self.draw_sched_row(sched, i, ticks, is_layout);
            proof {
                let row = sched_row_writes(w, threads, ticks, is_layout, i as int);
                lemma_write_all_append(cv0, w, h, before, row);
                assert(clear_ws + sched_rows_writes(w, threads, ticks, is_layout, (i + 1) as nat) =~= before + row);
            }
            i = i + 1;
        }
        let ghost done = clear_ws + sched_rows_writes(w, threads, ticks, is_layout, 4);
        let critical_tmr_ops = match core {
            Some(c) => c.critical_tmr_ops,
            None => 0,
        };
        let tmr_voter_corrections = match core {
            Some(c) => c.tmr_voter_corrections,
            None => 0,
        };
        proof {
            reveal_strlit("TMR Ops    : ");
            reveal_strlit(" | Voter Corrects: ");
            reveal_strlit("Voter Health Status: 100.00% (Triple Redundant)");
            lemma_ticks_text_len(critical_tmr_ops as nat);
            lemma_ticks_text_len(tmr_voter_corrections as nat);
        }
        let tmr_y: usize = 455;
        let tmr_line = String::from_str("TMR Ops    : ").concat(format_ticks(critical_tmr_ops).as_str()).concat(
            " | Voter Corrects: ",
        ).concat(format_ticks(tmr_voter_corrections).as_str());
        proof {
            lemma_string_fits(675, 465, tmr_line@, w, None, 1);
        }
        self.draw_string(675, tmr_y + 10, tmr_line.as_str(), Color { r: 243, g: 244, b: 246 }, None, 1);
        let ghost tmr_ws = string_writes(675, 465, tmr_line@, w, color_text_white(), None, 1);
        proof {
            lemma_write_all_append(cv0, w, h, done, tmr_ws);
        }
        if is_layout {
            proof {
                lemma_string_fits(675, 480, "Voter Health Status: 100.00% (Triple Redundant)"@, w, None, 1);
            }
            self.draw_string(
                675,
                tmr_y + 25,
                "Voter Health Status: 100.00% (Triple Redundant)",
                Color { r: 32, g: 223, b: 127 },
                None,
                1,
            );
            proof {
                lemma_write_all_append(
                    cv0,
                    w,
                    h,
                    done + tmr_ws,
                    string_writes(
                        675,
                        480,
                        "Voter Health Status: 100.00% (Triple Redundant)"@,
                        w,
                        color_accent_green(),
                        None,
                        1,
                    ),
                );
            }
        } else {
            assert(done + tmr_ws + Seq::<PixelWrite>::empty() =~= done + tmr_ws);
        }
    }
}

/// Grey of an inactive tab's frame.
pub open spec fn color_tab_border() -> Color {
    Color { r: 80, g: 85, b: 95 }
}

/// Pink of the desktop's active tab.
pub open spec fn color_glow_pink() -> Color {
    Color { r: 255, g: 0, b: 160 }
}

/// The writes of the console and dashboard tabs at the bottom: the active
/// one filled with a star before its label, the other on the card colour
/// with a grey frame.
pub open spec fn tabs_writes(w: int, is_tty: bool) -> Seq<PixelWrite> {
    (if is_tty {
        rect_writes(60, 550, 200, 32, color_accent_blue()) + string_writes(
            74,
            559,
            "\u{2605} [F1] TTY CONSOLE"@,
            w,
            color_text_white(),
            None,
            1,
        )
    } else {
        rect_writes(60, 550, 200, 32, color_panel()) + frame_writes(60, 550, 200, 32, color_tab_border())
            + string_writes(84, 559, "[F1] TTY CONSOLE"@, w, color_text_muted(), None, 1)
    }) + (if !is_tty {
        rect_writes(280, 550, 240, 32, color_accent_purple()) + string_writes(
            280,
            559,
            "\u{2605} [F2] TELEMETRY DASHBOARD"@,
            w,
            color_text_white(),
            None,
            1,
        )
    } else {
        rect_writes(280, 550, 240, 32, color_panel()) + frame_writes(280, 550, 240, 32, color_tab_border())
            + string_writes(290, 559, "[F2] TELEMETRY DASHBOARD"@, w, color_text_muted(), None, 1)
    })
}

/// The writes of the desktop's three tabs: console and dashboard inactive,
/// the desktop tab active in pink.
pub open spec fn desktop_tabs_writes(w: int) -> Seq<PixelWrite> {
    rect_writes(60, 610, 200, 32, color_panel()) + frame_writes(60, 610, 200, 32, color_tab_border()) + string_writes(
        84,
        619,
        "[F1] TTY CONSOLE"@,
        w,
        color_text_muted(),
        None,
        1,
    ) + rect_writes(280, 610, 240, 32, color_panel()) + frame_writes(280, 610, 240, 32, color_tab_border())
        + string_writes(290, 619, "[F2] TELEMETRY DASHBOARD"@, w, color_text_muted(), None, 1) + rect_writes(
        540,
        610,
        240,
        32,
        color_glow_pink(),
    ) + string_writes(548, 619, "\u{2605} [F3] WAYLAND WM DESKTOP"@, w, color_text_white(), None, 1)
}

impl UefiGraphics {
    /// Draws the console and dashboard tabs, the console's active when
    /// `is_tty`; see `tabs_writes`.
    pub fn draw_navigation_tabs(&mut self, is_tty: bool)
        requires
            old(self).wf(),
        ensures
            final(self).wf(),
            final(self).canvas() == write_all(
                old(self).canvas(),
                old(self).width as int,
                old(self).height as int,
                tabs_writes(old(self).width as int, is_tty),
            ),
            final(self).same_device(*old(self)),
            final(self).same_mouse(*old(self)),
    {
        let ghost cv0 = self.canvas();
        let ghost w = self.width as int;
        let ghost h = self.height as int;
        let tty_tab_x: usize = 60;
        let tty_tab_y: usize = 550;
        let tty_tab_w: usize = 200;
        let tty_tab_h: usize = 32;
        let db_tab_x: usize = 280;
        let db_tab_y: usize = 550;
        let db_tab_w: usize = 240;
        let db_tab_h: usize = 32;
        let active_color = Color { r: 0, g: 150, b: 255 };
        let inactive_color = Color { r: 24, g: 28, b: 34 };
        let border_color = Color { r: 80, g: 85, b: 95 };
        let white = Color { r: 243, g: 244, b: 246 };
        let muted = Color { r: 107, g: 114, b: 128 };
        proof {
            reveal_strlit("\u{2605} [F1] TTY CONSOLE");
            reveal_strlit("[F1] TTY CONSOLE");
            reveal_strlit("\u{2605} [F2] TELEMETRY DASHBOARD");
            reveal_strlit("[F2] TELEMETRY DASHBOARD");
            lemma_string_fits(74, 559, "\u{2605} [F1] TTY CONSOLE"@, w, None, 1);
            lemma_string_fits(84, 559, "[F1] TTY CONSOLE"@, w, None, 1);
            lemma_string_fits(280, 559, "\u{2605} [F2] TELEMETRY DASHBOARD"@, w, None, 1);
            lemma_string_fits(290, 559, "[F2] TELEMETRY DASHBOARD"@, w, None, 1);
        }
        let ghost mut done: Seq<PixelWrite>;
        if is_tty {
            self.draw_rect(tty_tab_x, tty_tab_y, tty_tab_w, tty_tab_h, active_color);
            self.draw_string(tty_tab_x + 14, tty_tab_y + 9, "\u{2605} [F1] TTY CONSOLE", white, None, 1);
            proof {
                let a = rect_writes(60, 550, 200, 32, color_accent_blue());
                let b = string_writes(74, 559, "\u{2605} [F1] TTY CONSOLE"@, w, color_text_white(), None, 1);
                lemma_write_all_append(cv0, w, h, a, b);
                done = a + b;
            }
        } else {
            self.draw_rect(tty_tab_x, tty_tab_y, tty_tab_w, tty_tab_h, inactive_color);
            self.draw_border_lines(tty_tab_x, tty_tab_y, tty_tab_w, tty_tab_h, border_color);
            self.draw_string(tty_tab_x + 24, tty_tab_y + 9, "[F1] TTY CONSOLE", muted, None, 1);
            proof {
                let a = rect_writes(60, 550, 200, 32, color_panel());
                let b = frame_writes(60, 550, 200, 32, color_tab_border());
                let c = string_writes(84, 559, "[F1] TTY CONSOLE"@, w, color_text_muted(), None, 1);
                lemma_write_all_append(cv0, w, h, a, b);
                lemma_write_all_append(cv0, w, h, a + b, c);
                done = a + b + c;
            }
        }
        if !is_tty {
            self.draw_rect(db_tab_x, db_tab_y, db_tab_w, db_tab_h, Color { r: 147, g: 51, b: 234 });
            self.draw_string(db_tab_x + 0, db_tab_y + 9, "\u{2605} [F2] TELEMETRY DASHBOARD", white, None, 1);
            proof {
                let a = rect_writes(280, 550, 240, 32, color_accent_purple());
                let b = string_writes(280, 559, "\u{2605} [F2] TELEMETRY DASHBOARD"@, w, color_text_white(), None, 1);
                lemma_write_all_append(cv0, w, h, done, a);
                lemma_write_all_append(cv0, w, h, done + a, b);
                assert(done + a + b =~= done + (a + b));
            }
        } else {
            self.draw_rect(db_tab_x, db_tab_y, db_tab_w, db_tab_h, inactive_color);
            self.draw_border_lines(db_tab_x, db_tab_y, db_tab_w, db_tab_h, border_color);
            self.draw_string(db_tab_x + 10, db_tab_y + 9, "[F2] TELEMETRY DASHBOARD", muted, None, 1);
            proof {
                let a = rect_writes(280, 550, 240, 32, color_panel());
                let b = frame_writes(280, 550, 240, 32, color_tab_border());
                let c = string_writes(290, 559, "[F2] TELEMETRY DASHBOARD"@, w, color_text_muted(), None, 1);
                lemma_write_all_append(cv0, w, h, done, a);
                lemma_write_all_append(cv0, w, h, done + a, b);
                lemma_write_all_append(cv0, w, h, done + a + b, c);
                assert(done + a + b + c =~= done + (a + b + c));
            }
        }
    }

    /// Draws the desktop's three tabs; see `desktop_tabs_writes`.
    pub fn draw_navigation_tabs_desktop(&mut self)
        requires
            old(self).wf(),
        ensures
            final(self).wf(),
            final(self).canvas() == write_all(
                old(self).canvas(),
                old(self).width as int,
                old(self).height as int,
                desktop_tabs_writes(old(self).width as int),
            ),
            final(self).same_device(*old(self)),
            final(self).same_mouse(*old(self)),
    {
        let ghost cv0 = self.canvas();
        let ghost w = self.width as int;
        let ghost h = self.height as int;
        let inactive_color = Color { r: 24, g: 28, b: 34 };
        let border_color = Color { r: 80, g: 85, b: 95 };
        let muted = Color { r: 107, g: 114, b: 128 };
        proof {
            reveal_strlit("[F1] TTY CONSOLE");
            reveal_strlit("[F2] TELEMETRY DASHBOARD");
            reveal_strlit("\u{2605} [F3] WAYLAND WM DESKTOP");
            lemma_string_fits(84, 619, "[F1] TTY CONSOLE"@, w, None, 1);
            lemma_string_fits(290, 619, "[F2] TELEMETRY DASHBOARD"@, w, None, 1);
            lemma_string_fits(548, 619, "\u{2605} [F3] WAYLAND WM DESKTOP"@, w, None, 1);
        }
        self.draw_rect(60, 610, 200, 32, inactive_color);
        let ghost mut done = rect_writes(60, 610, 200, 32, color_panel());
        self.draw_border_lines(60, 610, 200, 32, border_color);
        proof {
            let ws = frame_writes(60, 610, 200, 32, color_tab_border());
            lemma_write_all_append(cv0, w, h, done, ws);
            done = done + ws;
        }
        self.draw_string(60 + 24, 610 + 9, "[F1] TTY CONSOLE", muted, None, 1);
        proof {
            let ws = string_writes(84, 619, "[F1] TTY CONSOLE"@, w, color_text_muted(), None, 1);
            lemma_write_all_append(cv0, w, h, done, ws);
            done = done + ws;
        }
        self.draw_rect(280, 610, 240, 32, inactive_color);
        proof {
            let ws = rect_writes(280, 610, 240, 32, color_panel());
            lemma_write_all_append(cv0, w, h, done, ws);
            done = done + ws;
        }
        self.draw_border_lines(280, 610, 240, 32, border_color);
        proof {
            let ws = frame_writes(280, 610, 240, 32, color_tab_border());
            lemma_write_all_append(cv0, w, h, done, ws);
            done = done + ws;
        }
        self.draw_string(280 + 10, 610 + 9, "[F2] TELEMETRY DASHBOARD", muted, None, 1);
        proof {
            let ws = string_writes(290, 619, "[F2] TELEMETRY DASHBOARD"@, w, color_text_muted(), None, 1);
            lemma_write_all_append(cv0, w, h, done, ws);
            done = done + ws;
        }
        self.draw_rect(540, 610, 240, 32, Color { r: 255, g: 0, b: 160 });
        proof {
            let ws = rect_writes(540, 610, 240, 32, color_glow_pink());
            lemma_write_all_append(cv0, w, h, done, ws);
            done = done + ws;
        }
        self.draw_string(540 + 8, 610 + 9, "\u{2605} [F3] WAYLAND WM DESKTOP", Color { r: 243, g: 244, b: 246 }, None, 1);
        proof {
            let ws = string_writes(548, 619, "\u{2605} [F3] WAYLAND WM DESKTOP"@, w, color_text_white(), None, 1);
            lemma_write_all_append(cv0, w, h, done, ws);
        }
    }
}

/// The writes of the heartbeat bar at row `y`: its track in the background
/// colour, then its first `(ticks * 8) % 1160` pixels in green.
pub open spec fn heartbeat_writes(ticks: int, y: int) -> Seq<PixelWrite> {
    rect_writes(60, y, 1160, 12, color_bg()) + rect_writes(60, y, ((ticks * 8) % 1160) as nat, 12, color_accent_green())
}

/// The writes of a task card at column `x`: card, accent line, title, its
/// PID line, stack and status lines, and its last line.
pub open spec fn task_card_writes(
    w: int,
    x: int,
    accent: Color,
    title: Seq<char>,
    pid_line: Seq<char>,
    last_line: Seq<char>,
) -> Seq<PixelWrite> {
    rect_writes(x, 80, 420, 150, color_panel()) + rect_writes(x, 80, 420, 4, accent) + string_writes(
        x + 16,
        96,
        title,
        w,
        color_text_white(),
        None,
        1,
    ) + string_writes(x + 16, 124, pid_line, w, color_text_muted(), None, 1) + string_writes(
        x + 16,
        144,
        "Stack      : 8 KB (Dynamic Offset)"@,
        w,
        color_text_muted(),
        None,
        1,
    ) + string_writes(x + 16, 164, "Status     : RUNNING (Passive Yield)"@, w, color_accent_green(), None, 1)
        + string_writes(x + 16, 184, last_line, w, color_text_muted(), None, 1)
}

/// The writes of the system telemetry card, showing `ticks`.
pub open spec fn telemetry_card_writes(w: int, ticks: nat) -> Seq<PixelWrite> {
    rect_writes(940, 80, 300, 150, color_panel()) + rect_writes(940, 80, 300, 4, color_text_muted()) + string_writes(
        956,
        96,
        "SYSTEM TELEMETRY"@,
        w,
        color_text_white(),
        None,
        1,
    ) + string_writes(956, 124, "System Ticks : "@, w, color_text_muted(), None, 1) + string_writes(
        1076,
        124,
        ticks_text(ticks),
        w,
        color_accent_blue(),
        None,
        1,
    ) + string_writes(956, 144, "Voter Health : 100.00%"@, w, color_accent_green(), None, 1) + string_writes(
        956,
        164,
        "ECC State    : Safe / Self-Healed"@,
        w,
        color_text_muted(),
        None,
        1,
    ) + string_writes(956, 184, "Scheduler    : Cooperative (100Hz)"@, w, color_text_muted(), None, 1)
}

/// The writes of a panel frame at column `x`: card, accent line, title and
/// rule.
pub open spec fn panel_frame_writes(w: int, x: int, accent: Color, title: Seq<char>) -> Seq<PixelWrite> {
    rect_writes(x, 260, 585, 260, color_panel()) + rect_writes(x, 260, 585, 4, accent) + string_writes(
        x + 20,
        276,
        title,
        w,
        color_text_white(),
        None,
        1,
    ) + rect_writes(x + 20, 296, 545, 1, color_text_muted())
}

/// The writes of the whole dashboard on a canvas `w` by `h`: background,
/// header band in the colours `header`, titles, the three cards, the
/// memory and scheduler panels, the tabs and the heartbeat bar.
pub open spec fn dashboard_layout_writes(
    w: int,
    h: int,
    header: Seq<Color>,
    ticks: usize,
    core: Option<&SystemCore>,
    threads: Seq<Thread>,
) -> Seq<PixelWrite> {
    rect_writes(0, 0, w as nat, h as nat, color_bg()) + columns_writes(0, 0, 48, header, header.len()) + string_writes(
        24,
        14,
        "AE RUSTANIUM OS - UEFI 64-BIT BARE-METAL KERNEL"@,
        w,
        color_text_white(),
        None,
        2,
    ) + string_writes(w - 220, 20, "[ SECURE SPACE FLIGHT ACTIVE ]"@, w, color_accent_green(), None, 1)
        + task_card_writes(
        w,
        40,
        color_accent_blue(),
        "COOPERATIVE TASK: MEMORY SCRUBBER"@,
        "PID        : 101"@,
        "Task Sweep : Page ECC SECDED Safe Scan"@,
    ) + task_card_writes(
        w,
        490,
        color_accent_purple(),
        "COOPERATIVE TASK: FLIGHT TELEMETRY"@,
        "PID        : 102"@,
        "Frequency  : Real-Time Diagnostic Burst"@,
    ) + telemetry_card_writes(w, ticks as nat) + panel_frame_writes(
        w,
        40,
        color_accent_blue(),
        "PHYSICAL MEMORY PAGE ALLOCATION MAP (8x8 GRID)"@,
    ) + memory_grid_writes(
        w,
        grid_frames(core),
        grid_map(core),
        core_quarantined(core),
        core_healed(core),
        core_sweeps(core),
        true,
    ) + panel_frame_writes(w, 655, color_accent_purple(), "ACTIVE TASK SCHEDULER & THREAD METRICS"@)
        + sched_metrics_writes(w, threads, ticks, core_tmr_ops(core), core_tmr_corrections(core), true) + tabs_writes(
        w,
        false,
    ) + heartbeat_writes(ticks as int, 610) + string_writes(
        60,
        630,
        "System heartbeat tick pulse - Dynamic Scheduler Execution Line"@,
        w,
        color_text_muted(),
        None,
        1,
    )
}

/// The writes of a dashboard refresh: the ticks value, the heartbeat bar,
/// then what changes in the memory and scheduler panels.
pub open spec fn dashboard_update_writes(w: int, ticks: usize, core: Option<&SystemCore>, threads: Seq<Thread>) -> Seq<
    PixelWrite,
> {
    rect_writes(1076, 124, 120, 12, color_panel()) + string_writes(
        1076,
        124,
        ticks_text(ticks as nat),
        w,
        color_accent_blue(),
        None,
        1,
    ) + heartbeat_writes(ticks as int, 610) + memory_grid_writes(
        w,
        grid_frames(core),
        grid_map(core),
        core_quarantined(core),
        core_healed(core),
        core_sweeps(core),
        false,
    ) + sched_metrics_writes(w, threads, ticks, core_tmr_ops(core), core_tmr_corrections(core), false)
}

impl UefiGraphics {
    /// Draws the heartbeat bar at row `y`; see `heartbeat_writes`.
    fn draw_heartbeat(&mut self, ticks: usize, y: usize)
        requires
            old(self).wf(),
            ticks * 8 <= usize::MAX,
            y + 12 <= usize::MAX,
        ensures
            final(self).wf(),
            final(self).canvas() == write_all(
                old(self).canvas(),
                old(self).width as int,
                old(self).height as int,
                heartbeat_writes(ticks as int, y as int),
            ),
            final(self).same_device(*old(self)),
            final(self).same_mouse(*old(self)),
    {
        let ghost cv0 = self.canvas();
        let bar_width = (ticks * 8) % 1160;
        self.draw_rect(60, y, 1160, 12, Color { r: 13, g: 15, b: 18 });
        self.draw_rect(60, y, bar_width, 12, Color { r: 32, g: 223, b: 127 });
        proof {
            lemma_write_all_append(
                cv0,
                self.width as int,
                self.height as int,
                rect_writes(60, y as int, 1160, 12, color_bg()),
                rect_writes(60, y as int, bar_width as nat, 12, color_accent_green()),
            );
        }
    }

    /// Draws a task card at column `x`; see `task_card_writes`.
    fn draw_task_card(&mut self, x: usize, accent: Color, title: &str, pid_line: &str, last_line: &str)
        requires
            old(self).wf(),
            x + 16 + 9 * title@.len() <= usize::MAX,
            x + 16 + 9 * pid_line@.len() <= usize::MAX,
            x + 16 + 9 * last_line@.len() <= usize::MAX,
            x + 420 <= usize::MAX,
        ensures
            final(self).wf(),
            final(self).canvas() == write_all(
                old(self).canvas(),
                old(self).width as int,
                old(self).height as int,
                task_card_writes(old(self).width as int, x as int, accent, title@, pid_line@, last_line@),
            ),
            final(self).same_device(*old(self)),
            final(self).same_mouse(*old(self)),
    {
        let ghost cv0 = self.canvas();
        let ghost w = self.width as int;
        let ghost h = self.height as int;
        let muted = Color { r: 107, g: 114, b: 128 };
        proof {
            reveal_strlit("Stack      : 8 KB (Dynamic Offset)");
            reveal_strlit("Status     : RUNNING (Passive Yield)");
            lemma_string_fits(x + 16, 96, title@, w, None, 1);
            lemma_string_fits(x + 16, 124, pid_line@, w, None, 1);
            lemma_string_fits(x + 16, 144, "Stack      : 8 KB (Dynamic Offset)"@, w, None, 1);
            lemma_string_fits(x + 16, 164, "Status     : RUNNING (Passive Yield)"@, w, None, 1);
            lemma_string_fits(x + 16, 184, last_line@, w, None, 1);
        }
        self.draw_rect(x, 80, 420, 150, Color { r: 24, g: 28, b: 34 });
        let ghost mut done = rect_writes(x as int, 80, 420, 150, color_panel());
        self.draw_rect(x, 80, 420, 4, accent);
        proof {
            let ws = rect_writes(x as int, 80, 420, 4, accent);
            lemma_write_all_append(cv0, w, h, done, ws);
            done = done + ws;
        }
        self.draw_string(x + 16, 96, title, Color { r: 243, g: 244, b: 246 }, None, 1);
        proof {
            let ws = string_writes(x + 16, 96, title@, w, color_text_white(), None, 1);
            lemma_write_all_append(cv0, w, h, done, ws);
            done = done + ws;
        }
        self.draw_string(x + 16, 124, pid_line, muted, None, 1);
        proof {
            let ws = string_writes(x + 16, 124, pid_line@, w, color_text_muted(), None, 1);
            lemma_write_all_append(cv0, w, h, done, ws);
            done = done + ws;
        }
        self.draw_string(x + 16, 144, "Stack      : 8 KB (Dynamic Offset)", muted, None, 1);
        proof {
            let ws = string_writes(x + 16, 144, "Stack      : 8 KB (Dynamic Offset)"@, w, color_text_muted(), None, 1);
            lemma_write_all_append(cv0, w, h, done, ws);
            done = done + ws;
        }
        self.draw_string(x + 16, 164, "Status     : RUNNING (Passive Yield)", Color { r: 32, g: 223, b: 127 }, None, 1);
        proof {
            let ws = string_writes(x + 16, 164, "Status     : RUNNING (Passive Yield)"@, w, color_accent_green(), None, 1);
            lemma_write_all_append(cv0, w, h, done, ws);
            done = done + ws;
        }
        self.draw_string(x + 16, 184, last_line, muted, None, 1);
        proof {
            let ws = string_writes(x + 16, 184, last_line@, w, color_text_muted(), None, 1);
            lemma_write_all_append(cv0, w, h, done, ws);
        }
    }

    /// Draws the system telemetry card; see `telemetry_card_writes`.
    fn draw_telemetry_card(&mut self, ticks: usize)
        requires
            old(self).wf(),
        ensures
            final(self).wf(),
            final(self).canvas() == write_all(
                old(self).canvas(),
                old(self).width as int,
                old(self).height as int,
                telemetry_card_writes(old(self).width as int, ticks as nat),
            ),
            final(self).same_device(*old(self)),
            final(self).same_mouse(*old(self)),
    {
        let ghost cv0 = self.canvas();
        let ghost w = self.width as int;
        let ghost h = self.height as int;
        let muted = Color { r: 107, g: 114, b: 128 };
        let ticks_str = format_ticks(ticks);
        proof {
            reveal_strlit("SYSTEM TELEMETRY");
            reveal_strlit("System Ticks : ");
            reveal_strlit("Voter Health : 100.00%");
            reveal_strlit("ECC State    : Safe / Self-Healed");
            reveal_strlit("Scheduler    : Cooperative (100Hz)");
            lemma_ticks_text_len(ticks as nat);
            lemma_string_fits(956, 96, "SYSTEM TELEMETRY"@, w, None, 1);
            lemma_string_fits(956, 124, "System Ticks : "@, w, None, 1);
            lemma_string_fits(1076, 124, ticks_str@, w, None, 1);
            lemma_string_fits(956, 144, "Voter Health : 100.00%"@, w, None, 1);
            lemma_string_fits(956, 164, "ECC State    : Safe / Self-Healed"@, w, None, 1);
            lemma_string_fits(956, 184, "Scheduler    : Cooperative (100Hz)"@, w, None, 1);
        }
        self.draw_rect(940, 80, 300, 150, Color { r: 24, g: 28, b: 34 });
        let ghost mut done = rect_writes(940, 80, 300, 150, color_panel());
        self.draw_rect(940, 80, 300, 4, muted);
        proof {
            let ws = rect_writes(940, 80, 300, 4, color_text_muted());
            lemma_write_all_append(cv0, w, h, done, ws);
            done = done + ws;
        }
        self.draw_string(956, 96, "SYSTEM TELEMETRY", Color { r: 243, g: 244, b: 246 }, None, 1);
        proof {
            let ws = string_writes(956, 96, "SYSTEM TELEMETRY"@, w, color_text_white(), None, 1);
            lemma_write_all_append(cv0, w, h, done, ws);
            done = done + ws;
        }
        self.draw_string(956, 124, "System Ticks : ", muted, None, 1);
        proof {
            let ws = string_writes(956, 124, "System Ticks : "@, w, color_text_muted(), None, 1);
            lemma_write_all_append(cv0, w, h, done, ws);
            done = done + ws;
        }
        self.draw_string(1076, 124, ticks_str.as_str(), Color { r: 0, g: 150, b: 255 }, None, 1);
        proof {
            let ws = string_writes(1076, 124, ticks_str@, w, color_accent_blue(), None, 1);
            lemma_write_all_append(cv0, w, h, done, ws);
            done = done + ws;
        }
        self.draw_string(956, 144, "Voter Health : 100.00%", Color { r: 32, g: 223, b: 127 }, None, 1);
        proof {
            let ws = string_writes(956, 144, "Voter Health : 100.00%"@, w, color_accent_green(), None, 1);
            lemma_write_all_append(cv0, w, h, done, ws);
            done = done + ws;
        }
        self.draw_string(956, 164, "ECC State    : Safe / Self-Healed", muted, None, 1);
        proof {
            let ws = string_writes(956, 164, "ECC State    : Safe / Self-Healed"@, w, color_text_muted(), None, 1);
            lemma_write_all_append(cv0, w, h, done, ws);
            done = done + ws;
        }
        self.draw_string(956, 184, "Scheduler    : Cooperative (100Hz)", muted, None, 1);
        proof {
            let ws = string_writes(956, 184, "Scheduler    : Cooperative (100Hz)"@, w, color_text_muted(), None, 1);
            lemma_write_all_append(cv0, w, h, done, ws);
        }
    }

    /// Draws a panel frame at column `x`; see `panel_frame_writes`.
    fn draw_panel_frame(&mut self, x: usize, accent: Color, title: &str)
        requires
            old(self).wf(),
            x + 20 + 9 * title@.len() <= usize::MAX,
            x + 600 <= usize::MAX,
        ensures
            final(self).wf(),
            final(self).canvas() == write_all(
                old(self).canvas(),
                old(self).width as int,
                old(self).height as int,
                panel_frame_writes(old(self).width as int, x as int, accent, title@),
            ),
            final(self).same_device(*old(self)),
            final(self).same_mouse(*old(self)),
    {
        let ghost cv0 = self.canvas();
        let ghost w = self.width as int;
        let ghost h = self.height as int;
        proof {
            lemma_string_fits(x + 20, 276, title@, w, None, 1);
        }
        self.draw_rect(x, 260, 585, 260, Color { r: 24, g: 28, b: 34 });
        let ghost mut done = rect_writes(x as int, 260, 585, 260, color_panel());
        self.draw_rect(x, 260, 585, 4, accent);
        proof {
            let ws = rect_writes(x as int, 260, 585, 4, accent);
            lemma_write_all_append(cv0, w, h, done, ws);
            done = done + ws;
        }
        self.draw_string(x + 20, 276, title, Color { r: 243, g: 244, b: 246 }, None, 1);
        proof {
            let ws = string_writes(x + 20, 276, title@, w, color_text_white(), None, 1);
            lemma_write_all_append(cv0, w, h, done, ws);
            done = done + ws;
        }
        self.draw_rect(x + 20, 296, 545, 1, Color { r: 107, g: 114, b: 128 });
        proof {
            let ws = rect_writes(x + 20, 296, 545, 1, color_text_muted());
            lemma_write_all_append(cv0, w, h, done, ws);
        }
    }
}

impl UefiGraphics {
    /// Draws the whole dashboard: see `dashboard_layout_writes`. `header`
    /// holds the colour of each column of the header band, a gradient from
    /// the blue to the purple accent worked out by the caller.
    pub fn draw_dashboard_layout(
        &mut self,
        ticks: usize,
        core: Option<&SystemCore>,
        sched: &Scheduler,
        header: &Vec<Color>,
    )
        requires
            old(self).wf(),
            header@.len() == old(self).width,
            old(self).width >= 220,
            string_fits(
                old(self).width - 220,
                20,
                "[ SECURE SPACE FLIGHT ACTIVE ]"@,
                old(self).width as int,
                None,
                1,
            ),
            ticks * 8 <= usize::MAX,
        ensures
            final(self).wf(),
            final(self).canvas() == write_all(
                old(self).canvas(),
                old(self).width as int,
                old(self).height as int,
                dashboard_layout_writes(
                    old(self).width as int,
                    old(self).height as int,
                    header@,
                    ticks,
                    core,
                    sched.threads@,
                ),
            ),
            final(self).same_device(*old(self)),
            !final(self).mouse_saved,
            final(self).mouse_backbuffer@ == old(self).mouse_backbuffer@,
    {
        let ghost cv0 = self.canvas();
        let ghost w = self.width as int;
        let ghost h = self.height as int;
        let ghost mb = self.mouse_backbuffer@;
        self.clear(Color { r: 13, g: 15, b: 18 });
        let ghost mut done = rect_writes(0, 0, w as nat, h as nat, color_bg());
        self.draw_color_columns(0, 0, 48, header);
        proof {
            let ws = columns_writes(0, 0, 48, header@, header@.len());
            lemma_write_all_append(cv0, w, h, done, ws);
            done = done + ws;
            reveal_strlit("AE RUSTANIUM OS - UEFI 64-BIT BARE-METAL KERNEL");
            lemma_string_fits(24, 14, "AE RUSTANIUM OS - UEFI 64-BIT BARE-METAL KERNEL"@, w, None, 2);
        }
        self.draw_string(
            24,
            14,
            "AE RUSTANIUM OS - UEFI 64-BIT BARE-METAL KERNEL",
            Color { r: 243, g: 244, b: 246 },
            None,
            2,
        );
        proof {
            let ws = string_writes(24, 14, "AE RUSTANIUM OS - UEFI 64-BIT BARE-METAL KERNEL"@, w, color_text_white(), None, 2);
            lemma_write_all_append(cv0, w, h, done, ws);
            done = done + ws;
        }
        let right = self.width - 220;
        self.draw_string(right, 20, "[ SECURE SPACE FLIGHT ACTIVE ]", Color { r: 32, g: 223, b: 127 }, None, 1);
        proof {
            let ws = string_writes(w - 220, 20, "[ SECURE SPACE FLIGHT ACTIVE ]"@, w, color_accent_green(), None, 1);
            lemma_write_all_append(cv0, w, h, done, ws);
            done = done + ws;
            reveal_strlit("COOPERATIVE TASK: MEMORY SCRUBBER");
            reveal_strlit("PID        : 101");
            reveal_strlit("Task Sweep : Page ECC SECDED Safe Scan");
            reveal_strlit("COOPERATIVE TASK: FLIGHT TELEMETRY");
            reveal_strlit("PID        : 102");
            reveal_strlit("Frequency  : Real-Time Diagnostic Burst");
        }
        self.draw_task_card(
            40,
            Color { r: 0, g: 150, b: 255 },
            "COOPERATIVE TASK: MEMORY SCRUBBER",
            "PID        : 101",
            "Task Sweep : Page ECC SECDED Safe Scan",
        );
        proof {
            let ws = task_card_writes(
                w,
                40,
                color_accent_blue(),
                "COOPERATIVE TASK: MEMORY SCRUBBER"@,
                "PID        : 101"@,
                "Task Sweep : Page ECC SECDED Safe Scan"@,
            );
            lemma_write_all_append(cv0, w, h, done, ws);
            done = done + ws;
        }
        self.draw_task_card(
            490,
            Color { r: 147, g: 51, b: 234 },
            "COOPERATIVE TASK: FLIGHT TELEMETRY",
            "PID        : 102",
            "Frequency  : Real-Time Diagnostic Burst",
        );
        proof {
            let ws = task_card_writes(
                w,
                490,
                color_accent_purple(),
                "COOPERATIVE TASK: FLIGHT TELEMETRY"@,
                "PID        : 102"@,
                "Frequency  : Real-Time Diagnostic Burst"@,
            );
            lemma_write_all_append(cv0, w, h, done, ws);
            done = done + ws;
        }
        self.draw_telemetry_card(ticks);
        proof {
            let ws = telemetry_card_writes(w, ticks as nat);
            lemma_write_all_append(cv0, w, h, done, ws);
            done = done + ws;
            reveal_strlit("PHYSICAL MEMORY PAGE ALLOCATION MAP (8x8 GRID)");
            reveal_strlit("ACTIVE TASK SCHEDULER & THREAD METRICS");
        }
        self.draw_panel_frame(40, Color { r: 0, g: 150, b: 255 }, "PHYSICAL MEMORY PAGE ALLOCATION MAP (8x8 GRID)");
        proof {
            let ws = panel_frame_writes(w, 40, color_accent_blue(), "PHYSICAL MEMORY PAGE ALLOCATION MAP (8x8 GRID)"@);
            lemma_write_all_append(cv0, w, h, done, ws);
            done = done + ws;
        }
        self.draw_dashboard_memory_grid(core, true);
        proof {
            let ws = memory_grid_writes(
                w,
                grid_frames(core),
                grid_map(core),
                core_quarantined(core),
                core_healed(core),
                core_sweeps(core),
                true,
            );
            lemma_write_all_append(cv0, w, h, done, ws);
            done = done + ws;
        }
        self.draw_panel_frame(655, Color { r: 147, g: 51, b: 234 }, "ACTIVE TASK SCHEDULER & THREAD METRICS");
        proof {
            let ws = panel_frame_writes(w, 655, color_accent_purple(), "ACTIVE TASK SCHEDULER & THREAD METRICS"@);
            lemma_write_all_append(cv0, w, h, done, ws);
            done = done + ws;
        }
        self.draw_dashboard_scheduler_metrics(core, sched, ticks, true);
        proof {
            let ws = sched_metrics_writes(w, sched.threads@, ticks, core_tmr_ops(core), core_tmr_corrections(core), true);
            lemma_write_all_append(cv0, w, h, done, ws);
            done = done + ws;
        }
        self.draw_navigation_tabs(false);
        proof {
            let ws = tabs_writes(w, false);
            lemma_write_all_append(cv0, w, h, done, ws);
            done = done + ws;
        }
        self.draw_heartbeat(ticks, 610);
        proof {
            let ws = heartbeat_writes(ticks as int, 610);
            lemma_write_all_append(cv0, w, h, done, ws);
            done = done + ws;
            reveal_strlit("System heartbeat tick pulse - Dynamic Scheduler Execution Line");
            lemma_string_fits(60, 630, "System heartbeat tick pulse - Dynamic Scheduler Execution Line"@, w, None, 1);
        }
        self.draw_string(
            60,
            630,
            "System heartbeat tick pulse - Dynamic Scheduler Execution Line",
            Color { r: 107, g: 114, b: 128 },
            None,
            1,
        );
        proof {
            let ws = string_writes(
                60,
                630,
                "System heartbeat tick pulse - Dynamic Scheduler Execution Line"@,
                w,
                color_text_muted(),
                None,
                1,
            );
            lemma_write_all_append(cv0, w, h, done, ws);
        }
    }

    /// Refreshes what changes on the dashboard: see
    /// `dashboard_update_writes`.
    pub fn update_dashboard_telemetry(&mut self, ticks: usize, core: Option<&SystemCore>, sched: &Scheduler)
        requires
            old(self).wf(),
            ticks * 8 <= usize::MAX,
        ensures
            final(self).wf(),
            final(self).canvas() == write_all(
                old(self).canvas(),
                old(self).width as int,
                old(self).height as int,
                dashboard_update_writes(old(self).width as int, ticks, core, sched.threads@),
            ),
            final(self).same_device(*old(self)),
            final(self).same_mouse(*old(self)),
    {
        let ghost cv0 = self.canvas();
        let ghost w = self.width as int;
        let ghost h = self.height as int;
        self.draw_rect(1076, 124, 120, 12, Color { r: 24, g: 28, b: 34 });
        let ghost mut done = rect_writes(1076, 124, 120, 12, color_panel());
        let ticks_str = format_ticks(ticks);
        proof {
            lemma_ticks_text_len(ticks as nat);
            lemma_string_fits(1076, 124, ticks_str@, w, None, 1);
        }
        self.draw_string(1076, 124, ticks_str.as_str(), Color { r: 0, g: 150, b: 255 }, None, 1);
        proof {
            let ws = string_writes(1076, 124, ticks_str@, w, color_accent_blue(), None, 1);
            lemma_write_all_append(cv0, w, h, done, ws);
            done = done + ws;
        }
        self.draw_heartbeat(ticks, 610);
        proof {
            let ws = heartbeat_writes(ticks as int, 610);
            lemma_write_all_append(cv0, w, h, done, ws);
            done = done + ws;
        }
        self.draw_dashboard_memory_grid(core, false);
        proof {
            let ws = memory_grid_writes(
                w,
                grid_frames(core),
                grid_map(core),
                core_quarantined(core),
                core_healed(core),
                core_sweeps(core),
                false,
            );
            lemma_write_all_append(cv0, w, h, done, ws);
            done = done + ws;
        }
        self.draw_dashboard_scheduler_metrics(core, sched, ticks, false);
        proof {
            let ws = sched_metrics_writes(w, sched.threads@, ticks, core_tmr_ops(core), core_tmr_corrections(core), false);
            lemma_write_all_append(cv0, w, h, done, ws);
        }
    }

    /// Shows `text` on the prompt line: the line cleared to the background
    /// colour, then the text in green.
    pub fn update_keyboard_prompt(&mut self, text: &str)
        requires
            old(self).wf(),
            string_fits(60, 530, text@, old(self).width as int, None, 1),
        ensures
            final(self).wf(),
            final(self).canvas() == write_all(
                old(self).canvas(),
                old(self).width as int,
                old(self).height as int,
                rect_writes(60, 530, 1160, 12, color_bg()) + string_writes(
                    60,
                    530,
                    text@,
                    old(self).width as int,
                    color_accent_green(),
                    None,
                    1,
                ),
            ),
            final(self).same_device(*old(self)),
            final(self).same_mouse(*old(self)),
    {
        let ghost cv0 = self.canvas();
        self.draw_rect(60, 530, 1160, 12, Color { r: 13, g: 15, b: 18 });
        self.draw_string(60, 530, text, Color { r: 32, g: 223, b: 127 }, None, 1);
        proof {
            lemma_write_all_append(
                cv0,
                self.width as int,
                self.height as int,
                rect_writes(60, 530, 1160, 12, color_bg()),
                string_writes(60, 530, text@, self.width as int, color_accent_green(), None, 1),
            );
        }
    }
}

/// Colour of an event line in the dashboard's log panel: boot, system and
/// kernel lines and echoed commands muted, thread lines blue, faults and
/// errors red, healing green, anything else white.
pub open spec fn log_line_color(line: Seq<char>) -> Color {
    if starts(line, ">>>"@) || starts(line, "[SYSTEM]"@) || starts(line, "[BOOT]"@) || starts(line, "[KERNEL]"@) {
        color_text_muted()
    } else if contains_seq(line, "[THREAD"@) {
        color_accent_blue()
    } else if contains_seq(line, "[QUARANTINE"@) || contains_seq(line, "[VFS ERR]"@) || contains_seq(
        line,
        "Unknown command"@,
    ) {
        Color { r: 255, g: 60, b: 60 }
    } else if contains_seq(line, "[HEALING"@) {
        color_accent_green()
    } else {
        color_text_white()
    }
}

/// The writes of the first `n` lines of the log panel, 20 pixels apart.
pub open spec fn log_lines_writes(w: int, logs: Seq<String>, n: nat) -> Seq<PixelWrite>
    decreases n,
{
    if n == 0 {
        Seq::empty()
    } else {
        log_lines_writes(w, logs, (n - 1) as nat) + string_writes(
            60,
            324 + (n - 1) * 20,
            logs[n - 1]@,
            w,
            log_line_color(logs[n - 1]@),
            None,
            1,
        )
    }
}

/// Lines shown in the log panel: at most eight.
pub open spec fn shown_logs(n: nat) -> nat {
    if n < 8 {
        n
    } else {
        8
    }
}

/// Whether `s` starts with `p`.
pub open spec fn starts(s: Seq<char>, p: Seq<char>) -> bool {
    s.len() >= p.len() && s.take(p.len() as int) == p
}

/// Whether `s` starts with `p`.
fn starts_with_text(s: &str, p: &str) -> (b: bool)
    ensures
        b == starts(s@, p@),
{
    let n = p.unicode_len();
    if s.unicode_len() < n {
        return false;
    }
    let mut i: usize = 0;
    while i < n
        invariant
            n == p@.len(),
            n <= s@.len(),
            i <= n,
            forall|k: int| 0 <= k < i ==> s@[k] == p@[k],
        decreases n - i,
    {
        if s.get_char(i) != p.get_char(i) {
            proof {
                assert(s@.take(p@.len() as int)[i as int] != p@[i as int]);
            }
            return false;
        }
        i = i + 1;
    }
    assert(s@.take(p@.len() as int) =~= p@);
    true
}

/// The colour of an event line in the log panel; see `log_line_color`.
fn log_color(line: &str) -> (c: Color)
    ensures
        c == log_line_color(line@),
{
    proof {
        reveal_strlit(">>>");
        reveal_strlit("[SYSTEM]");
        reveal_strlit("[BOOT]");
        reveal_strlit("[KERNEL]");
    }
    if starts_with_text(line, ">>>") || starts_with_text(line, "[SYSTEM]") || starts_with_text(line, "[BOOT]")
        || starts_with_text(line, "[KERNEL]") {
        Color { r: 107, g: 114, b: 128 }
    } else if contains_text(line, "[THREAD") {
        Color { r: 0, g: 150, b: 255 }
    } else if contains_text(line, "[QUARANTINE") || contains_text(line, "[VFS ERR]") || contains_text(
        line,
        "Unknown command",
    ) {
        Color { r: 255, g: 60, b: 60 }
    } else if contains_text(line, "[HEALING") {
        Color { r: 32, g: 223, b: 127 }
    } else {
        Color { r: 243, g: 244, b: 246 }
    }
}

impl UefiGraphics {
    /// Redraws the log panel: clears it, then shows the first eight lines
    /// of `logs`, each in the colour of its kind; see `log_lines_writes`.
    pub fn update_dashboard_logs(&mut self, logs: &Vec<String>)
        requires
            old(self).wf(),
            forall|i: int|
                0 <= i < shown_logs(logs@.len()) ==> string_fits(
                    60,
                    324 + i * 20,
                    #[trigger] logs@[i]@,
                    old(self).width as int,
                    None,
                    1,
                ),
        ensures
            final(self).wf(),
            final(self).canvas() == write_all(
                old(self).canvas(),
                old(self).width as int,
                old(self).height as int,
                rect_writes(60, 324, 1160, 156, color_panel()) + log_lines_writes(
                    old(self).width as int,
                    logs@,
                    shown_logs(logs@.len()),
                ),
            ),
            final(self).same_device(*old(self)),
            final(self).same_mouse(*old(self)),
    {
        let ghost cv0 = self.canvas();
        let ghost w = self.width as int;
        let ghost h = self.height as int;
        self.draw_rect(60, 324, 1160, 156, Color { r: 24, g: 28, b: 34 });
        let ghost head = rect_writes(60, 324, 1160, 156, color_panel());
        proof {
            assert(head + log_lines_writes(w, logs@, 0) =~= head);
        }
        let mut idx: usize = 0;
        while idx < logs.len()
            invariant
                self.wf(),
                self.same_device(*old(self)),
                self.same_mouse(*old(self)),
                w == self.width && h == self.height,
                idx <= 8,
                idx <= logs@.len(),
                forall|i: int|
                    0 <= i < shown_logs(logs@.len()) ==> string_fits(
                        60,
                        324 + i * 20,
                        #[trigger] logs@[i]@,
                        w,
                        None,
                        1,
                    ),
                self.canvas() == write_all(cv0, w, h, head + log_lines_writes(w, logs@, idx as nat)),
            ensures
                self.wf(),
                self.same_device(*old(self)),
                self.same_mouse(*old(self)),
                idx == shown_logs(logs@.len()),
                self.canvas() == write_all(cv0, w, h, head + log_lines_writes(w, logs@, idx as nat)),
            decreases logs@.len() - idx,
        {
            if idx >= 8 {
                break;
            }
            let y = 324 + idx * 20;
            let line = logs[idx].as_str();
            let color = log_color(line);
            assert(string_fits(60, 324 + idx * 20, logs@[idx as int]@, w, None, 1));
            self.draw_string(60, y, line, color, None, 1);
            proof {
                let ws = string_writes(60, y as int, line@, w, color, None, 1);
                lemma_write_all_append(cv0, w, h, head + log_lines_writes(w, logs@, idx as nat), ws);
                assert(head + log_lines_writes(w, logs@, (idx + 1) as nat) =~= head + log_lines_writes(
                    w,
                    logs@,
                    idx as nat,
                ) + ws);
            }
            idx = idx + 1;
        }
    }
}

} // verus!
