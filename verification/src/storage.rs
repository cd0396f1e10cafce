//! The human reports of managed-environment storage and of pruning it.
//!
//! Sizes arrive already written for people (`1.0 KiB`); the reports decide
//! what is said about each image and state path, and what pruning will and
//! will not touch.
use crate::text::{decimal, lines_text, pad_left, pad_right, padded_left, padded_right, string_views, u64_to_decimal, write_lines};
use vstd::prelude::*;

verus! {

broadcast use vstd::string::group_string_axioms;

/// A managed image: its id, tags, cumulative size and standing.
pub struct StorageImage {
    pub id: String,
    pub tags: Vec<String>,
    pub size: String,
    pub current: bool,
    pub prune_candidate: bool,
}

/// A generation of repository-local environment state.
pub struct StorageStateGeneration {
    pub path: String,
    pub size: String,
    pub current: bool,
    pub prune_candidate: bool,
}

/// What managed environments occupy.
pub struct StorageReport {
    pub engine: String,
    pub expected_image_tag: String,
    pub current_image_present: bool,
    pub images: Vec<StorageImage>,
    pub image_cumulative_size: String,
    pub state_root: String,
    pub state_root_size: String,
    pub state_generations: Vec<StorageStateGeneration>,
    pub classified_state_size: String,
    pub unclassified_state_size: String,
}

/// What a prune did or would do.
pub struct StoragePruneResult {
    pub report: StorageReport,
    pub applied: bool,
    pub images_requested: bool,
    pub removed_images: u64,
    pub removed_state_generations: u64,
    pub failures: Vec<(String, String)>,
}

/// An image is named by its first tag, else by its id.
pub open spec fn image_name(image: StorageImage) -> Seq<char> {
    if image.tags@.len() > 0 {
        image.tags@[0]@
    } else {
        image.id@
    }
}

pub open spec fn image_state(image: StorageImage) -> Seq<char> {
    if image.current {
        "current"@
    } else if image.prune_candidate {
        "stale"@
    } else {
        "legacy"@
    }
}

pub open spec fn generation_state(g: StorageStateGeneration) -> Seq<char> {
    if g.current {
        "current"@
    } else {
        "stale"@
    }
}

/// A listed entry: its state, its right-aligned size and its name.
pub open spec fn entry_line(state: Seq<char>, size: Seq<char>, name: Seq<char>) -> Seq<char> {
    "  "@ + pad_right(state, 7) + " "@ + pad_left(size, 10) + "  "@ + name
}

pub open spec fn image_lines(images: Seq<StorageImage>) -> Seq<Seq<char>> {
    images.map_values(|i: StorageImage| entry_line(image_state(i), i.size@, image_name(i)))
}

pub open spec fn generation_lines(gs: Seq<StorageStateGeneration>) -> Seq<Seq<char>> {
    gs.map_values(|g: StorageStateGeneration| entry_line(generation_state(g), g.size@, g.path@))
}

/// The lines of the storage report.
pub open spec fn storage_report_lines(r: StorageReport) -> Seq<Seq<char>> {
    seq![
        "Ayni environment storage ("@ + r.engine@ + ")"@,
        "Expected image tag: "@ + r.expected_image_tag@,
        "Current image present: "@ + if r.current_image_present {
            "yes"@
        } else {
            "no; run `ayni env build` to create it"@
        },
        "Images: "@ + decimal(r.images@.len()) + " ("@ + r.image_cumulative_size@ + " cumulative)"@,
    ] + image_lines(r.images@) + seq![
        "State root: "@ + r.state_root_size@ + " total logical data under "@ + r.state_root@,
        "Classified environment state: "@ + decimal(r.state_generations@.len()) + " path(s), "@
            + r.classified_state_size@ + " logical data"@,
    ] + generation_lines(r.state_generations@) + seq![
        "Unclassified state: "@ + r.unclassified_state_size@
            + " (included in state-root total; reported, never pruned)"@,
        "Image sizes are cumulative, not unique or reclaimable; shared layers and engine build cache are not attributed."@,
        "Image deletion scope is engine-wide across repositories; repository-local state is reported separately."@,
    ]
}

fn push_line(ls: &mut Vec<String>, s: String)
    ensures
        string_views(final(ls)@) == string_views(old(ls)@).push(s@),
{
    let ghost before = ls@;
    ls.push(s);
    assert(string_views(ls@) =~= string_views(before).push(s@));
}

fn join3(a: &str, b: &str, c: &str) -> (r: String)
    ensures
        r@ == a@ + b@ + c@,
{
    let mut out = String::from_str(a);
    out.append(b);
    out.append(c);
    out
}

fn entry_line_exec(state: &str, size: &str, name: &str) -> (r: String)
    ensures
        r@ == entry_line(state@, size@, name@),
{
    let mut out = String::from_str("  ");
    let st = padded_right(state, 7);
    out.append(st.as_str());
    out.append(" ");
    let sz = padded_left(size, 10);
    out.append(sz.as_str());
    out.append("  ");
    out.append(name);
    out
}

fn image_line(image: &StorageImage) -> (r: String)
    ensures
        r@ == entry_line(image_state(*image), image.size@, image_name(*image)),
{
    let state = if image.current {
        "current"
    } else if image.prune_candidate {
        "stale"
    } else {
        "legacy"
    };
    let name = if image.tags.len() > 0 {
        image.tags[0].as_str()
    } else {
        image.id.as_str()
    };
    entry_line_exec(state, image.size.as_str(), name)
}

/// The storage report, one line per fact.
pub fn render_storage_report(report: &StorageReport) -> (r: String)
    ensures
        r@ == lines_text(storage_report_lines(*report)),
{
    let mut ls: Vec<String> = Vec::new();
    push_line(&mut ls, join3("Ayni environment storage (", report.engine.as_str(), ")"));
    let mut l2 = String::from_str("Expected image tag: ");
    l2.append(report.expected_image_tag.as_str());
    push_line(&mut ls, l2);
    let mut l3 = String::from_str("Current image present: ");
    l3.append(
        if report.current_image_present {
            "yes"
        } else {
            "no; run `ayni env build` to create it"
        },
    );
    push_line(&mut ls, l3);
    let count = u64_to_decimal(report.images.len() as u64);
    let mut l4 = join3("Images: ", count.as_str(), " (");
    l4.append(report.image_cumulative_size.as_str());
    l4.append(" cumulative)");
    push_line(&mut ls, l4);
    let ghost head = string_views(ls@);
    let mut i: usize = 0;
    while i < report.images.len()
        invariant
            i <= report.images@.len(),
            string_views(ls@) == head + image_lines(report.images@.take(i as int)),
        decreases report.images@.len() - i,
    {
        let line = image_line(&report.images[i]);
        push_line(&mut ls, line);
        assert(image_lines(report.images@.take(i + 1)) =~= image_lines(report.images@.take(i as int)).push(
            line@,
        ));
        i = i + 1;
    }
    assert(report.images@.take(report.images@.len() as int) =~= report.images@);
    let ghost mid = string_views(ls@);
    let mut l5 = join3("State root: ", report.state_root_size.as_str(), " total logical data under ");
    l5.append(report.state_root.as_str());
    push_line(&mut ls, l5);
    let gens = u64_to_decimal(report.state_generations.len() as u64);
    let mut l6 = join3("Classified environment state: ", gens.as_str(), " path(s), ");
    l6.append(report.classified_state_size.as_str());
    l6.append(" logical data");
    push_line(&mut ls, l6);
    let ghost mid2 = string_views(ls@);
    let mut j: usize = 0;
    while j < report.state_generations.len()
        invariant
            j <= report.state_generations@.len(),
            string_views(ls@) == mid2 + generation_lines(report.state_generations@.take(j as int)),
        decreases report.state_generations@.len() - j,
    {
        let g = &report.state_generations[j];
        let line = entry_line_exec(
            if g.current {
                "current"
            } else {
                "stale"
            },
            g.size.as_str(),
            g.path.as_str(),
        );
        push_line(&mut ls, line);
        assert(generation_lines(report.state_generations@.take(j + 1)) =~= generation_lines(
            report.state_generations@.take(j as int),
        ).push(line@));
        j = j + 1;
    }
    assert(report.state_generations@.take(report.state_generations@.len() as int) =~= report.state_generations@);
    push_line(
        &mut ls,
        join3(
            "Unclassified state: ",
            report.unclassified_state_size.as_str(),
            " (included in state-root total; reported, never pruned)",
        ),
    );
    push_line(
        &mut ls,
        String::from_str(
            "Image sizes are cumulative, not unique or reclaimable; shared layers and engine build cache are not attributed.",
        ),
    );
    push_line(
        &mut ls,
        String::from_str(
            "Image deletion scope is engine-wide across repositories; repository-local state is reported separately.",
        ),
    );
    assert(string_views(ls@) =~= storage_report_lines(*report));
    write_lines(&ls)
}


/// The images a prune may remove, in report order.
pub open spec fn image_candidates(images: Seq<StorageImage>) -> Seq<StorageImage>
    decreases images.len(),
{
    if images.len() == 0 {
        seq![]
    } else if images.last().prune_candidate {
        image_candidates(images.drop_last()).push(images.last())
    } else {
        image_candidates(images.drop_last())
    }
}

/// The state paths a prune may remove, in report order.
pub open spec fn state_candidates(gs: Seq<StorageStateGeneration>) -> Seq<StorageStateGeneration>
    decreases gs.len(),
{
    if gs.len() == 0 {
        seq![]
    } else if gs.last().prune_candidate {
        state_candidates(gs.drop_last()).push(gs.last())
    } else {
        state_candidates(gs.drop_last())
    }
}

pub open spec fn candidate_line(kind: Seq<char>, size: Seq<char>, name: Seq<char>) -> Seq<char> {
    "  "@ + kind + " "@ + pad_left(size, 10) + "  "@ + name
}

/// The lines of the prune report: what is a candidate, what was removed or
/// would be, and what is always kept.
pub open spec fn prune_lines(r: StoragePruneResult) -> Seq<Seq<char>> {
    let images = image_candidates(r.report.images@);
    let states = state_candidates(r.report.state_generations@);
    seq![
        if r.applied {
            "Ayni storage prune applied"@
        } else {
            "Ayni storage prune dry run"@
        },
        "Repository-local state candidates: "@ + decimal(states.len()) + " managed-state path(s)"@,
        "Engine-wide image candidates: "@ + decimal(images.len()) + " managed image(s) ("@ + if r.images_requested {
            "explicitly selected with --images"@
        } else {
            "not selected; add --images to acknowledge cross-repository scope"@
        } + ")"@,
    ] + images.map_values(|i: StorageImage| candidate_line("image"@, i.size@, image_name(i)))
        + states.map_values(|g: StorageStateGeneration| candidate_line("state"@, g.size@, g.path@)) + if r.applied {
        seq![
            "Removed: "@ + decimal(r.removed_images as nat) + " image(s), "@ + decimal(
                r.removed_state_generations as nat,
            ) + " managed-state path(s)"@,
        ] + r.failures@.map_values(|f: (String, String)| "Failed: "@ + f.0@ + " — "@ + f.1@)
    } else {
        seq![
            "No data was removed. Rerun with --apply to delete repository-local state; add --images only to include engine-wide image candidates."@,
        ]
    } + seq![
        "Images are never deleted without both --apply and --images. The current image, legacy images, unclassified state, shared layers, and global build cache are retained."@,
    ]
}

/// The prune report.
pub fn render_storage_prune(result: &StoragePruneResult) -> (r: String)
    ensures
        r@ == lines_text(prune_lines(*result)),
{
    let report = &result.report;
    let mut image_idx: Vec<usize> = Vec::new();
    let mut i: usize = 0;
    while i < report.images.len()
        invariant
            i <= report.images@.len(),
            image_idx@.len() == image_candidates(report.images@.take(i as int)).len(),
            forall|k: int| 0 <= k < image_idx@.len() ==> (#[trigger] image_idx@[k]) < i && report.images@[image_idx@[k] as int]
                == image_candidates(report.images@.take(i as int))[k],
        decreases report.images@.len() - i,
    {
        proof {
            assert(report.images@.take(i + 1).drop_last() =~= report.images@.take(i as int));
        }
        if report.images[i].prune_candidate {
            image_idx.push(i);
        }
        i = i + 1;
    }
    assert(report.images@.take(report.images@.len() as int) =~= report.images@);
    let mut state_idx: Vec<usize> = Vec::new();
    let mut j: usize = 0;
    while j < report.state_generations.len()
        invariant
            j <= report.state_generations@.len(),
            state_idx@.len() == state_candidates(report.state_generations@.take(j as int)).len(),
            forall|k: int| 0 <= k < state_idx@.len() ==> (#[trigger] state_idx@[k]) < j
                && report.state_generations@[state_idx@[k] as int] == state_candidates(
                report.state_generations@.take(j as int),
            )[k],
        decreases report.state_generations@.len() - j,
    {
        proof {
            assert(report.state_generations@.take(j + 1).drop_last() =~= report.state_generations@.take(j as int));
        }
        if report.state_generations[j].prune_candidate {
            state_idx.push(j);
        }
        j = j + 1;
    }
    assert(report.state_generations@.take(report.state_generations@.len() as int) =~= report.state_generations@);
    let ghost images = image_candidates(report.images@);
    let ghost states = state_candidates(report.state_generations@);

    let mut ls: Vec<String> = Vec::new();
    push_line(
        &mut ls,
        String::from_str(
            if result.applied {
                "Ayni storage prune applied"
            } else {
                "Ayni storage prune dry run"
            },
        ),
    );
    let sc = u64_to_decimal(state_idx.len() as u64);
    push_line(&mut ls, join3("Repository-local state candidates: ", sc.as_str(), " managed-state path(s)"));
    let ic = u64_to_decimal(image_idx.len() as u64);
    let mut l3 = join3("Engine-wide image candidates: ", ic.as_str(), " managed image(s) (");
    l3.append(
        if result.images_requested {
            "explicitly selected with --images"
        } else {
            "not selected; add --images to acknowledge cross-repository scope"
        },
    );
    l3.append(")");
    push_line(&mut ls, l3);
    let ghost head = string_views(ls@);
    let mut a: usize = 0;
    while a < image_idx.len()
        invariant
            a <= image_idx@.len(),
            image_idx@.len() == images.len(),
            images == image_candidates(report.images@),
            forall|k: int| 0 <= k < image_idx@.len() ==> (#[trigger] image_idx@[k]) < report.images@.len()
                && report.images@[image_idx@[k] as int] == images[k],
            string_views(ls@) == head + images.take(a as int).map_values(
                |i: StorageImage| candidate_line("image"@, i.size@, image_name(i)),
            ),
        decreases image_idx@.len() - a,
    {
        let image = &report.images[image_idx[a]];
        let name = if image.tags.len() > 0 {
            image.tags[0].as_str()
        } else {
            image.id.as_str()
        };
        let mut line = String::from_str("  ");
        line.append("image");
        line.append(" ");
        let sz = padded_left(image.size.as_str(), 10);
        line.append(sz.as_str());
        line.append("  ");
        line.append(name);
        push_line(&mut ls, line);
        assert(images.take(a + 1) =~= images.take(a as int).push(images[a as int]));
        assert(images.take(a + 1).map_values(|i: StorageImage| candidate_line("image"@, i.size@, image_name(i)))
            =~= images.take(a as int).map_values(
            |i: StorageImage| candidate_line("image"@, i.size@, image_name(i)),
        ).push(line@));
        a = a + 1;
    }
    assert(images.take(images.len() as int) =~= images);
    let ghost mid = string_views(ls@);
    let mut b: usize = 0;
    while b < state_idx.len()
        invariant
            b <= state_idx@.len(),
            state_idx@.len() == states.len(),
            states == state_candidates(report.state_generations@),
            forall|k: int| 0 <= k < state_idx@.len() ==> (#[trigger] state_idx@[k]) < report.state_generations@.len()
                && report.state_generations@[state_idx@[k] as int] == states[k],
            string_views(ls@) == mid + states.take(b as int).map_values(
                |g: StorageStateGeneration| candidate_line("state"@, g.size@, g.path@),
            ),
        decreases state_idx@.len() - b,
    {
        let g = &report.state_generations[state_idx[b]];
        let mut line = String::from_str("  ");
        line.append("state");
        line.append(" ");
        let sz = padded_left(g.size.as_str(), 10);
        line.append(sz.as_str());
        line.append("  ");
        line.append(g.path.as_str());
        push_line(&mut ls, line);
        assert(states.take(b + 1) =~= states.take(b as int).push(states[b as int]));
        assert(states.take(b + 1).map_values(|g: StorageStateGeneration| candidate_line("state"@, g.size@, g.path@))
            =~= states.take(b as int).map_values(
            |g: StorageStateGeneration| candidate_line("state"@, g.size@, g.path@),
        ).push(line@));
        b = b + 1;
    }
    assert(states.take(states.len() as int) =~= states);
    let ghost mid2 = string_views(ls@);
    if result.applied {
        let removed = u64_to_decimal(result.removed_images);
        let removed_states = u64_to_decimal(result.removed_state_generations);
        let mut line = join3("Removed: ", removed.as_str(), " image(s), ");
        line.append(removed_states.as_str());
        line.append(" managed-state path(s)");
        push_line(&mut ls, line);
        let ghost mid3 = string_views(ls@);
        let mut f: usize = 0;
        while f < result.failures.len()
            invariant
                f <= result.failures@.len(),
                string_views(ls@) == mid3 + result.failures@.take(f as int).map_values(
                    |f: (String, String)| "Failed: "@ + f.0@ + " — "@ + f.1@,
                ),
            decreases result.failures@.len() - f,
        {
            let mut line = join3("Failed: ", result.failures[f].0.as_str(), " — ");
            line.append(result.failures[f].1.as_str());
            push_line(&mut ls, line);
            assert(result.failures@.take(f + 1) =~= result.failures@.take(f as int).push(result.failures@[f as int]));
            assert(result.failures@.take(f + 1).map_values(|f: (String, String)| "Failed: "@ + f.0@ + " — "@ + f.1@)
                =~= result.failures@.take(f as int).map_values(
                |f: (String, String)| "Failed: "@ + f.0@ + " — "@ + f.1@,
            ).push(line@));
            f = f + 1;
        }
        assert(result.failures@.take(result.failures@.len() as int) =~= result.failures@);
    } else {
        push_line(
            &mut ls,
            String::from_str(
                "No data was removed. Rerun with --apply to delete repository-local state; add --images only to include engine-wide image candidates.",
            ),
        );
    }
    push_line(
        &mut ls,
        String::from_str(
            "Images are never deleted without both --apply and --images. The current image, legacy images, unclassified state, shared layers, and global build cache are retained.",
        ),
    );
    assert(string_views(ls@) =~= prune_lines(*result));
    write_lines(&ls)
}

} // verus!
