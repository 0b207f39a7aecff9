//! The text of the side lists, the definition summary, the footer and the
//! dialogs, from the browser's state.
use vstd::prelude::*;
use crate::json_text::{nat_text, u64_text};
use crate::swamp::model::{DetailsView, ModelDetails, ModelSummary, SummaryView};
use crate::swamp::workflow::{WorkflowSummary, WorkflowSummaryView};
use crate::app::{InputMode, Tab};
use crate::json::wf;
use crate::json_text::{json_pretty, pretty_text};
use crate::schema::{mask, redacted, redacted_payload, FieldView, FormField, FormMode, ModeView};
use crate::state::{selected_model_of, App, AppView, ModeState};
use crate::text::{join, join_strings, views};
use crate::ui::{cat, global_lines, format_global_arguments, lines_view, one, push_line, single, LineV, Piece, Tone, pair, line_view};

verus! {

/// A definition in the side list: its name in bold, its type dim.
pub open spec fn model_item(m: SummaryView) -> Seq<LineV> {
    seq![one(m.name, Tone::Bold), one(m.model_type, Tone::Dim)]
}

/// A workflow in the side list: its name in bold; its job count, and
/// whether it takes inputs, dim.
pub open spec fn workflow_item(w: WorkflowSummaryView) -> Seq<LineV> {
    let jobs = nat_text(w.job_count as nat) + " job"@ + (if w.job_count == 1 {
        Seq::empty()
    } else {
        "s"@
    }) + (if w.has_inputs {
        " · inputs"@
    } else {
        Seq::empty()
    });
    seq![one(w.name, Tone::Bold), one(jobs, Tone::Dim)]
}

/// The title of a side list, naming the filter when one is set.
pub open spec fn list_title(noun: Seq<char>, search: Seq<char>) -> Seq<char> {
    if search.len() == 0 {
        " "@ + noun + " "@
    } else {
        " "@ + noun + " matching “"@ + search + "” "@
    }
}

/// The summary of the selected definition: nothing selected; or its name,
/// id, type, type version and definition version, then its global
/// arguments (`None` when it has none, a loading note while its details are
/// not in).
pub open spec fn model_summary_lines(detail: Option<DetailsView>, model: Option<SummaryView>) -> Seq<LineV> {
    if detail is None && model is None {
        seq![one("Select a model to inspect it."@, Tone::Plain)]
    } else {
        let (name, id, model_type) = match detail {
            Some(d) => (d.name, d.id, d.model_type),
            None => (model->Some_0.name, model->Some_0.id, model->Some_0.model_type),
        };
        let type_version = match detail {
            Some(d) => match d.type_version {
                Some(t) => t,
                None => "unknown"@,
            },
            None => "unknown"@,
        };
        let version = match detail {
            Some(d) => match d.version {
                Some(v) => nat_text(v as nat),
                None => "?"@,
            },
            None => "?"@,
        };
        let head = seq![
            one("Name: "@ + name + "   ID: "@ + id, Tone::Plain),
            one("Type: "@ + model_type + "   Type version: "@ + type_version + "   Definition: v"@ + version, Tone::Plain),
            Seq::empty(),
            one("Global arguments"@, Tone::Bold),
        ];
        let args = match detail {
            Some(d) => global_lines(d.global_arguments),
            None => seq![one("Loading definition details…"@, Tone::Dim)],
        };
        head + if args.len() == 0 {
            seq![one("None"@, Tone::Dim)]
        } else {
            args
        }
    }
}

/// The footer: the status with the key hints, then the error, if any.
pub open spec fn footer_lines(status: Seq<char>, error: Option<Seq<char>>) -> Seq<LineV> {
    seq![seq![(status, Tone::Accent), ("  ·  / filter definitions · Tab focus · r refresh · ? help · q quit"@, Tone::Plain)]]
        + match error {
        Some(e) => seq![one(e, Tone::Alert)],
        None => Seq::empty(),
    }
}

/// A rectangle of the terminal.
#[derive(Clone, Copy, PartialEq, Eq, Structural)]
pub struct Area {
    pub x: u16,
    pub y: u16,
    pub width: u16,
    pub height: u16,
}

/// A dialog's extent along one axis: a percentage of the screen's (the
/// product saturating at `u16::MAX`) when at most 100, else the size asked
/// for, at most the screen's.
pub open spec fn dialog_extent(asked: u16, extent: u16) -> int {
    if asked <= 100 {
        (if extent * asked > u16::MAX {
            u16::MAX as int
        } else {
            extent * asked
        }) / 100
    } else if asked < extent {
        asked as int
    } else {
        extent as int
    }
}

} // verus!

verus! {

/// A definition's entry in the side list (`model_item`).
pub fn model_item_lines(m: &ModelSummary) -> (r: Vec<Vec<Piece>>)
    ensures
        lines_view(r@) == model_item(m@),
{
    let mut lines: Vec<Vec<Piece>> = Vec::new();
    push_line(&mut lines, single(m.name.clone(), Tone::Bold));
    push_line(&mut lines, single(m.model_type.clone(), Tone::Dim));
    proof {
        assert(lines_view(lines@) =~= model_item(m@));
    }
    lines
}

/// A workflow's entry in the side list (`workflow_item`).
pub fn workflow_item_lines(w: &WorkflowSummary) -> (r: Vec<Vec<Piece>>)
    ensures
        lines_view(r@) == workflow_item(w@),
{
    let mut lines: Vec<Vec<Piece>> = Vec::new();
    push_line(&mut lines, single(w.name.clone(), Tone::Bold));
    let count = u64_text(w.job_count as u64);
    let plural = if w.job_count == 1 {
        ""
    } else {
        "s"
    };
    let inputs = if w.has_inputs {
        " · inputs"
    } else {
        ""
    };
    proof {
        reveal_strlit("");
    }
    let jobs = cat(cat(cat(count.as_str(), " job").as_str(), plural).as_str(), inputs);
    push_line(&mut lines, single(jobs, Tone::Dim));
    proof {
        assert(lines_view(lines@) =~= workflow_item(w@));
    }
    lines
}

/// The title of a side list (`list_title`).
pub fn list_title_text(noun: &str, search: &str) -> (r: String)
    ensures
        r@ == list_title(noun@, search@),
{
    if search.is_empty() {
        cat(cat(" ", noun).as_str(), " ")
    } else {
        cat(cat(cat(cat(" ", noun).as_str(), " matching “").as_str(), search).as_str(), "” ")
    }
}

/// The summary of the selected definition (`model_summary_lines`).
pub fn model_summary(detail: Option<&ModelDetails>, model: Option<&ModelSummary>) -> (r: Vec<Vec<Piece>>)
    ensures
        lines_view(r@) == model_summary_lines(
            match detail {
                Some(d) => Some(d@),
                None => None,
            },
            match model {
                Some(m) => Some(m@),
                None => None,
            },
        ),
{
    let ghost dv = match detail {
        Some(d) => Some(d@),
        None => None::<DetailsView>,
    };
    let ghost mv = match model {
        Some(m) => Some(m@),
        None => None::<SummaryView>,
    };
    let mut lines: Vec<Vec<Piece>> = Vec::new();
    if detail.is_none() && model.is_none() {
        push_line(&mut lines, single(String::from_str("Select a model to inspect it."), Tone::Plain));
        proof {
            assert(lines_view(lines@) =~= model_summary_lines(dv, mv));
        }
        return lines;
    }
    let (name, id, model_type) = match detail {
        Some(d) => (d.name.as_str(), d.id.as_str(), d.model_type.as_str()),
        None => match model {
            Some(m) => (m.name.as_str(), m.id.as_str(), m.model_type.as_str()),
            None => ("?", "?", "?"),
        },
    };
    let type_version = match detail {
        Some(d) => match &d.type_version {
            Some(t) => t.clone(),
            None => String::from_str("unknown"),
        },
        None => String::from_str("unknown"),
    };
    let version = match detail {
        Some(d) => match d.version {
            Some(v) => u64_text(v),
            None => String::from_str("?"),
        },
        None => String::from_str("?"),
    };
    push_line(&mut lines, single(cat(cat(cat("Name: ", name).as_str(), "   ID: ").as_str(), id), Tone::Plain));
    let t1 = cat(cat(cat("Type: ", model_type).as_str(), "   Type version: ").as_str(), type_version.as_str());
    push_line(&mut lines, single(cat(cat(t1.as_str(), "   Definition: v").as_str(), version.as_str()), Tone::Plain));
    push_line(&mut lines, Vec::new());
    push_line(&mut lines, single(String::from_str("Global arguments"), Tone::Bold));
    let ghost head = lines_view(lines@);
    proof {
        assert(line_view(Seq::<Piece>::empty()) =~= Seq::empty());
        assert(head =~= seq![
            one("Name: "@ + name@ + "   ID: "@ + id@, Tone::Plain),
            one("Type: "@ + model_type@ + "   Type version: "@ + type_version@ + "   Definition: v"@ + version@, Tone::Plain),
            Seq::empty(),
            one("Global arguments"@, Tone::Bold),
        ]);
    }
    match detail {
        Some(d) => {
            let args = format_global_arguments(&d.global_arguments);
            if args.len() == 0 {
                push_line(&mut lines, single(String::from_str("None"), Tone::Dim));
            } else {
                let mut args = args;
                let ghost av = lines_view(args@);
                let mut i: usize = 0;
                let mut rev: Vec<Vec<Piece>> = Vec::new();
                while args.len() > 0
                    invariant
                        lines_view(rev@) == av.subrange(args@.len() as int, av.len() as int).reverse(),
                        lines_view(args@) == av.take(args@.len() as int),
                        args@.len() <= av.len(),
                    decreases args.len(),
                {
                    let ghost k = args@.len();
                    let ghost old_args = args@;
                    let l = args.pop().unwrap();
                    let ghost before = lines_view(rev@);
                    let ghost lv = line_view(l@);
                    rev.push(l);
                    proof {
                        assert(lines_view(old_args)[k - 1] == line_view(old_args[k - 1]@));
                        assert(lv == av[k - 1]);
                        assert(lines_view(rev@) =~= before.push(lv));
                        assert(lines_view(rev@) =~= av.subrange(k - 1, av.len() as int).reverse());
                        assert(lines_view(args@) =~= av.take(k - 1));
                    }
                }
                proof {
                    assert(av.subrange(0, av.len() as int) =~= av);
                }
                let n = rev.len();
                while rev.len() > 0
                    invariant
                        n == av.len(),
                        rev@.len() + i == n,
                        lines_view(rev@) == av.subrange(i as int, n as int).reverse(),
                        lines_view(lines@) == head + av.take(i as int),
                    decreases rev.len(),
                {
                    let ghost old_rev = rev@;
                    let l = rev.pop().unwrap();
                    let ghost lv = line_view(l@);
                    proof {
                        assert(lines_view(old_rev)[old_rev.len() - 1] == line_view(old_rev[old_rev.len() - 1]@));
                        assert(av.subrange(i as int, n as int).reverse().last() == av[i as int]);
                        assert(lines_view(rev@) =~= lines_view(old_rev).drop_last());
                        assert(av.subrange(i as int, n as int).reverse().drop_last() =~= av.subrange(
                            i as int + 1,
                            n as int,
                        ).reverse());
                    }
                    push_line(&mut lines, l);
                    proof {
                        assert(av.take(i as int + 1) =~= av.take(i as int).push(av[i as int]));
                    }
                    i = i + 1;
                }
                proof {
                    assert(av.take(n as int) =~= av);
                }
            }
        },
        None => {
            push_line(&mut lines, single(String::from_str("Loading definition details…"), Tone::Dim));
        },
    }
    proof {
        assert(lines_view(lines@) =~= model_summary_lines(dv, mv));
    }
    lines
}

/// The footer (`footer_lines`).
pub fn footer(status: &str, error: Option<&String>) -> (r: Vec<Vec<Piece>>)
    ensures
        lines_view(r@) == footer_lines(
            status@,
            match error {
                Some(e) => Some(e@),
                None => None,
            },
        ),
{
    let mut lines: Vec<Vec<Piece>> = Vec::new();
    push_line(
        &mut lines,
        pair(
            String::from_str(status),
            Tone::Accent,
            String::from_str("  ·  / filter definitions · Tab focus · r refresh · ? help · q quit"),
            Tone::Plain,
        ),
    );
    match error {
        Some(e) => push_line(&mut lines, single(e.clone(), Tone::Alert)),
        None => {},
    }
    proof {
        assert(lines_view(lines@) =~= footer_lines(
            status@,
            match error {
                Some(e) => Some(e@),
                None => None,
            },
        ));
    }
    lines
}

fn extent_of(asked: u16, extent: u16) -> (r: u16)
    ensures
        r == dialog_extent(asked, extent),
        r <= extent,
{
    if asked <= 100 {
        proof {
            assert(extent * asked <= extent * 100) by (nonlinear_arith)
                requires
                    asked <= 100,
                    extent >= 0,
            ;
        }
        let product: u32 = (extent as u32) * (asked as u32);
        let saturated: u32 = if product > 65535 {
            65535
        } else {
            product
        };
        (saturated / 100) as u16
    } else if asked < extent {
        asked
    } else {
        extent
    }
}

/// A dialog of `width` by `height` (percentages when at most 100) centred
/// in `area`.
pub fn centered_rect(width: u16, height: u16, area: Area) -> (r: Area)
    requires
        area.x + (area.width - dialog_extent(width, area.width)) / 2 <= u16::MAX,
        area.y + (area.height - dialog_extent(height, area.height)) / 2 <= u16::MAX,
    ensures
        r.width == dialog_extent(width, area.width),
        r.height == dialog_extent(height, area.height),
        r.x == area.x + (area.width - r.width) / 2,
        r.y == area.y + (area.height - r.height) / 2,
{
    let w = extent_of(width, area.width);
    let h = extent_of(height, area.height);
    Area { x: area.x + (area.width - w) / 2, y: area.y + (area.height - h) / 2, width: w, height: h }
}

} // verus!

verus! {

/// The help dialog's text.
pub open spec fn help_text() -> Seq<char> {
    "Arrows or j/k  Move selection\nTab              Cycle definition/type method/output focus\n1/2/3/4          Overview/Methods/Data/Workflows\nEnter            Open, load, or run\n/                Filter definitions\nr                Refresh\n[ / ]            Data versions or type outputs\nSpace            Expand/collapse selected output\na / b            Mark comparison versions\nc                Cancel active run\nEsc              Close dialog or hide run log\nq                Quit\n?                Close help"@
}

/// A field's value as the form shows it: masked when secret and not empty.
pub open spec fn field_shown(f: FieldView) -> Seq<char> {
    if f.secret && f.value.len() > 0 {
        mask()
    } else {
        f.value
    }
}

/// A field's lines in the form: a cursor mark, a `*` when required, its
/// label and value; the description of the field under the cursor.
pub open spec fn field_entry(f: FieldView, picked: bool) -> Seq<Seq<char>> {
    let marker = if picked {
        "›"@
    } else {
        " "@
    };
    let req = if f.required {
        "*"@
    } else {
        " "@
    };
    seq![marker + " "@ + req + f.label + ": "@ + field_shown(f)] + if picked && f.description.len() > 0 {
        seq!["    "@ + f.description]
    } else {
        Seq::empty()
    }
}

pub open spec fn concat_texts(parts: Seq<Seq<Seq<char>>>) -> Seq<Seq<char>>
    decreases parts.len(),
{
    if parts.len() == 0 {
        Seq::empty()
    } else {
        concat_texts(parts.drop_last()) + parts.last()
    }
}

/// Each field's lines.
pub open spec fn field_entries(fs: Seq<FieldView>, selected: usize) -> Seq<Seq<Seq<char>>> {
    Seq::new(fs.len(), |i: int| field_entry(fs[i], i == selected))
}

/// The text of the input form: the raw editor with a cursor, or the fields
/// one per line between a note and the key hints.
pub open spec fn form_text(mode: ModeView, selected: usize) -> Seq<char> {
    match mode {
        ModeView::RawJson(v) => "The schema uses constructs not represented by field widgets.\nEdit the complete JSON value:\n\n"@
            + v + "█\n\nEnter validates · Esc cancels"@,
        ModeView::Fields(fs) => join(
            seq!["Edit inputs; optional empty values are omitted."@] + concat_texts(field_entries(fs, selected)) + seq![Seq::empty(), "Enter validates · arrows select · Space cycles · Esc cancels"@],
            "\n"@,
        ),
    }
}

/// A dialog: its size (percentages when at most 100), title and text.
pub struct Dialog {
    pub width: u16,
    pub height: u16,
    pub title: String,
    pub text: String,
}

pub struct DialogView {
    pub width: u16,
    pub height: u16,
    pub title: Seq<char>,
    pub text: Seq<char>,
}

impl View for Dialog {
    type V = DialogView;

    open spec fn view(&self) -> DialogView {
        DialogView { width: self.width, height: self.height, title: self.title@, text: self.text@ }
    }
}

pub open spec fn selected_name(s: AppView) -> Seq<char> {
    match selected_model_of(s) {
        Some(m) => m.name,
        None => "?"@,
    }
}

/// The dialog that the input mode shows, if any.
pub open spec fn dialog_of(s: AppView) -> Option<DialogView> {
    match s.mode {
        ModeState::Normal => None,
        ModeState::Search => Some(
            DialogView {
                width: 60,
                height: 5,
                title: if s.tab == Tab::Workflows {
                    " Filter workflows "@
                } else {
                    " Filter definitions "@
                },
                text: s.search + "█\nEnter applies · Esc clears"@,
            },
        ),
        ModeState::MethodForm => match s.form {
            Some(f) => Some(
                DialogView { width: 80, height: 80, title: " Method inputs "@, text: form_text(f.mode, f.selected_field) },
            ),
            None => None,
        },
        ModeState::Review => {
            let model_type = match selected_model_of(s) {
                Some(m) => m.model_type,
                None => "?"@,
            };
            let method = match s.form {
                Some(f) => f.method.name,
                None => "?"@,
            };
            let payload = match (s.form, s.pending_payload) {
                (Some(f), Some(p)) => json_pretty(redacted(f.method.arguments, p)),
                _ => Seq::empty(),
            };
            Some(
                DialogView {
                    width: 76,
                    height: 70,
                    title: " Review method invocation "@,
                    text: "Definition: "@ + selected_name(s) + "\nType: "@ + model_type + "\nMethod: "@ + method + "\n\n"@
                        + payload + "\n\ny/Enter run · n/Esc edit"@,
                },
            )
        },
        ModeState::DestructiveConfirm(t) => Some(
            DialogView {
                width: 70,
                height: 9,
                title: " Destructive-looking method "@,
                text: "This method may be destructive.\nType the model name `"@ + selected_name(s)
                    + "` to continue:\n\n"@ + t + "█\n\nEnter confirms · Esc returns"@,
            },
        ),
        ModeState::LargeConfirm(_) => Some(
            DialogView {
                width: 62,
                height: 8,
                title: " Large content "@,
                text: "This operation exceeds the "@ + nat_text(s.preview_limit as nat)
                    + " byte preview threshold.\n\ny/Enter load anyway · n/Esc cancel"@,
            },
        ),
        ModeState::Help => Some(DialogView { width: 70, height: 70, title: " Help "@, text: help_text() }),
    }
}

} // verus!

verus! {

proof fn lemma_concat_texts_step(parts: Seq<Seq<Seq<char>>>, i: int)
    requires
        0 <= i < parts.len(),
    ensures
        concat_texts(parts.take(i + 1)) == concat_texts(parts.take(i)) + parts[i],
{
    assert(parts.take(i + 1).drop_last() =~= parts.take(i));
}

/// The text of the input form (`form_text`).
pub fn form_dialog_text(mode: &FormMode, selected: usize) -> (r: String)
    ensures
        r@ == form_text(mode@, selected),
{
    match mode {
        FormMode::RawJson(v) => {
            let r = cat(
                cat(
                    "The schema uses constructs not represented by field widgets.\nEdit the complete JSON value:\n\n",
                    v.as_str(),
                ).as_str(),
                "█\n\nEnter validates · Esc cancels",
            );
            proof {
                assert(mode@ == ModeView::RawJson(v@));
            }
            r
        },
        FormMode::Fields(fields) => {
            let ghost fv = mode@->Fields_0;
            let ghost parts = field_entries(fv, selected);
            let mut lines: Vec<String> = Vec::new();
            lines.push(String::from_str("Edit inputs; optional empty values are omitted."));
            proof {
                assert(parts.take(0) =~= Seq::<Seq<Seq<char>>>::empty());
                assert(views(lines@) =~= seq!["Edit inputs; optional empty values are omitted."@] + concat_texts(
                    parts.take(0),
                ));
            }
            let mut i: usize = 0;
            while i < fields.len()
                invariant
                    i <= fields.len(),
                    fv == mode@->Fields_0,
                    *mode == FormMode::Fields(*fields),
                    fv.len() == fields@.len(),
                    parts == field_entries(fv, selected),
                    views(lines@) == seq!["Edit inputs; optional empty values are omitted."@] + concat_texts(
                        parts.take(i as int),
                    ),
                decreases fields.len() - i,
            {
                let ghost prev = views(lines@);
                proof {
                    lemma_concat_texts_step(parts, i as int);
                    assert(fv[i as int] == fields@[i as int]@);
                }
                let f = &fields[i];
                let marker = if i == selected {
                    "›"
                } else {
                    " "
                };
                let req = if f.required {
                    "*"
                } else {
                    " "
                };
                let head = cat(cat(cat(marker, " ").as_str(), req).as_str(), f.label.as_str());
                lines.push(cat(cat(head.as_str(), ": ").as_str(), f.display_value().as_str()));
                if i == selected && !f.description.as_str().is_empty() {
                    lines.push(cat("    ", f.description.as_str()));
                }
                proof {
                    assert(views(lines@) =~= prev + parts[i as int]);
                }
                i = i + 1;
            }
            proof {
                assert(parts.take(fields.len() as int) =~= parts);
            }
            let ghost before = views(lines@);
            lines.push(String::new());
            lines.push(String::from_str("Enter validates · arrows select · Space cycles · Esc cancels"));
            proof {
                assert(views(lines@) =~= before + seq![Seq::empty(), "Enter validates · arrows select · Space cycles · Esc cancels"@]);
                assert(mode@ == ModeView::Fields(fv));
                assert(views(lines@) =~= seq!["Edit inputs; optional empty values are omitted."@] + concat_texts(
                    field_entries(fv, selected),
                ) + seq![Seq::empty(), "Enter validates · arrows select · Space cycles · Esc cancels"@]);
            }
            let r = join_strings(&lines, "\n");
            proof {
                assert(r@ == form_text(mode@, selected));
            }
            r
        },
    }
}

/// The dialog that the input mode shows (`dialog_of`).
pub fn dialog(app: &App) -> (r: Option<Dialog>)
    requires
        app.form matches Some(f) ==> wf(f.method.arguments@),
    ensures
        match r {
            Some(d) => dialog_of(app@) == Some(d@),
            None => dialog_of(app@) is None,
        },
{
    let model = app.selected_model();
    let name = match model {
        Some(m) => m.name.as_str(),
        None => "?",
    };
    proof {
        assert(name@ == selected_name(app@));
    }
    match &app.mode {
        InputMode::Normal => None,
        InputMode::Search => {
            let title = if app.tab == Tab::Workflows {
                " Filter workflows "
            } else {
                " Filter definitions "
            };
            Some(
                Dialog {
                    width: 60,
                    height: 5,
                    title: String::from_str(title),
                    text: cat(app.search.as_str(), "█\nEnter applies · Esc clears"),
                },
            )
        },
        InputMode::MethodForm => match &app.form {
            Some(f) => Some(
                Dialog {
                    width: 80,
                    height: 80,
                    title: String::from_str(" Method inputs "),
                    text: form_dialog_text(&f.mode, f.selected_field),
                },
            ),
            None => None,
        },
        InputMode::Review => {
            let model_type = match model {
                Some(m) => m.model_type.as_str(),
                None => "?",
            };
            let method = match &app.form {
                Some(f) => f.method.name.as_str(),
                None => "?",
            };
            let payload = match (&app.form, &app.pending_payload) {
                (Some(f), Some(p)) => pretty_text(&redacted_payload(p, &f.method.arguments)),
                _ => String::new(),
            };
            let t1 = cat(cat(cat("Definition: ", name).as_str(), "\nType: ").as_str(), model_type);
            let t2 = cat(cat(cat(t1.as_str(), "\nMethod: ").as_str(), method).as_str(), "\n\n");
            let text = cat(cat(t2.as_str(), payload.as_str()).as_str(), "\n\ny/Enter run · n/Esc edit");
            Some(Dialog { width: 76, height: 70, title: String::from_str(" Review method invocation "), text })
        },
        InputMode::DestructiveConfirm(t) => {
            let t1 = cat(cat("This method may be destructive.\nType the model name `", name).as_str(), "` to continue:\n\n");
            let text = cat(cat(t1.as_str(), t.as_str()).as_str(), "█\n\nEnter confirms · Esc returns");
            Some(Dialog { width: 70, height: 9, title: String::from_str(" Destructive-looking method "), text })
        },
        InputMode::LargeConfirm(_) => {
            let t1 = cat("This operation exceeds the ", u64_text(app.preview_limit).as_str());
            let text = cat(t1.as_str(), " byte preview threshold.\n\ny/Enter load anyway · n/Esc cancel");
            Some(Dialog { width: 62, height: 8, title: String::from_str(" Large content "), text })
        },
        InputMode::Help => Some(
            Dialog {
                width: 70,
                height: 70,
                title: String::from_str(" Help "),
                text: String::from_str(
                    "Arrows or j/k  Move selection\nTab              Cycle definition/type method/output focus\n1/2/3/4          Overview/Methods/Data/Workflows\nEnter            Open, load, or run\n/                Filter definitions\nr                Refresh\n[ / ]            Data versions or type outputs\nSpace            Expand/collapse selected output\na / b            Mark comparison versions\nc                Cancel active run\nEsc              Close dialog or hide run log\nq                Quit\n?                Close help",
                ),
            },
        ),
    }
}

} // verus!

verus! {

/// The header's title: the program, the `swamp` version, the repository.
pub fn header_title(version: &str, repo: &str) -> (r: String)
    ensures
        r@ == " Lazyswamp · "@ + version@ + " · "@ + repo@ + " "@,
{
    cat(cat(cat(cat(" Lazyswamp · ", version).as_str(), " · ").as_str(), repo).as_str(), " ")
}

/// The panels of the screen that carry a fixed title.
#[derive(Clone, Copy, PartialEq, Eq, Structural)]
pub enum Panel {
    Definition,
    Methods,
    Data,
    Metadata,
    Content,
    Workflow,
    Graph,
    Step,
}

pub open spec fn panel_title_text(p: Panel) -> Seq<char> {
    match p {
        Panel::Definition => " Definition details "@,
        Panel::Methods => " Type methods · Enter to run "@,
        Panel::Data => " Data "@,
        Panel::Metadata => " Metadata "@,
        Panel::Content => " Content / diff "@,
        Panel::Workflow => " Workflow "@,
        Panel::Graph => " Dependency graph · j/k select node "@,
        Panel::Step => " Selected step "@,
    }
}

/// A panel's title.
pub fn panel_title(p: Panel) -> (r: &'static str)
    ensures
        r@ == panel_title_text(p),
{
    match p {
        Panel::Definition => " Definition details ",
        Panel::Methods => " Type methods · Enter to run ",
        Panel::Data => " Data ",
        Panel::Metadata => " Metadata ",
        Panel::Content => " Content / diff ",
        Panel::Workflow => " Workflow ",
        Panel::Graph => " Dependency graph · j/k select node ",
        Panel::Step => " Selected step ",
    }
}

} // verus!
