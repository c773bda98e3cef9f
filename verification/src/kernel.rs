//! What a running cell produces: the kernel's output messages, reduced to the outputs
//! and idle signal the notebook shows, and the choice of the richest form of a media
//! bundle (a decoded PNG over its text placeholder).

use vstd::prelude::*;
use crate::chars::{chars_of, trim, trim_chars, string_of};

verus! {

/// One piece of output produced by running a cell.
#[derive(Debug, PartialEq)]
pub enum Output {
    /// stdout/stderr stream text; `name` is the stream's name (`Stdout`, `Stderr`).
    Stream { name: String, text: String },
    /// text/plain result or display data.
    Text(String),
    /// Decoded PNG bytes (e.g. a figure).
    Png(Vec<u8>),
    /// An exception.
    Error { ename: String, evalue: String, traceback: Vec<String> },
}

/// The content of an `Output`, as values.
pub enum OutputModel {
    Stream { name: Seq<char>, text: Seq<char> },
    Text(Seq<char>),
    Png(Seq<u8>),
    Error { ename: Seq<char>, evalue: Seq<char>, traceback: Seq<Seq<char>> },
}

impl View for Output {
    type V = OutputModel;

    open spec fn view(&self) -> OutputModel {
        match self {
            Output::Stream { name, text } => OutputModel::Stream { name: name@, text: text@ },
            Output::Text(t) => OutputModel::Text(t@),
            Output::Png(b) => OutputModel::Png(b@),
            Output::Error { ename, evalue, traceback } => OutputModel::Error {
                ename: ename@,
                evalue: evalue@,
                traceback: traceback@.map_values(|t: String| t@),
            },
        }
    }
}

/// Event from a running cell: an output or the end of its execution.
#[derive(Debug, PartialEq)]
pub enum CellEvent {
    Output(Output),
    Idle,
}

/// One representation in a kernel's media bundle.
#[derive(Debug, PartialEq)]
pub enum MediaItem {
    /// `image/png`, base64-encoded.
    Png(String),
    /// `text/plain`.
    Plain(String),
    /// Any other media type.
    Other,
}

pub enum MediaModel {
    Png(Seq<char>),
    Plain(Seq<char>),
    Other,
}

impl View for MediaItem {
    type V = MediaModel;

    open spec fn view(&self) -> MediaModel {
        match self {
            MediaItem::Png(s) => MediaModel::Png(s@),
            MediaItem::Plain(s) => MediaModel::Plain(s@),
            MediaItem::Other => MediaModel::Other,
        }
    }
}

/// Base64 decoding with the standard alphabet and padding (the `base64` crate's
/// `STANDARD` engine): the bytes, or the text of the decoding error.
pub uninterp spec fn standard_base64(text: Seq<char>) -> Result<Seq<u8>, Seq<char>>;

/// Calls `base64::engine::general_purpose::STANDARD.decode` on the text; an error is
/// returned as its `Display` text. Claimed: the outcome is a function of the text alone.
#[verifier::external_body]
fn decode_standard_base64(text: &str) -> (r: Result<Vec<u8>, String>)
    ensures
        match r {
            Ok(b) => standard_base64(text@) == Ok::<Seq<u8>, Seq<char>>(b@),
            Err(e) => standard_base64(text@) == Err::<Seq<u8>, Seq<char>>(e@),
        },
{
    match base64::Engine::decode(&base64::engine::general_purpose::STANDARD, text) {
        Ok(bytes) => Ok(bytes),
        Err(e) => Err(format!("{e}")),
    }
}

/// Whether a bundle holds a PNG.
pub open spec fn has_png(media: Seq<MediaModel>) -> bool {
    exists|i: int| 0 <= i < media.len() && #[trigger] media[i] is Png
}

/// The outputs a bundle's items give, in order: each PNG decoded from its trimmed
/// base64 text (or an error text when it does not decode), and each plain text when
/// the bundle holds no PNG.
pub open spec fn media_outputs(media: Seq<MediaModel>, png: bool) -> Seq<OutputModel>
    decreases media.len(),
{
    if media.len() == 0 {
        Seq::empty()
    } else {
        let r = media_outputs(media.drop_last(), png);
        match media.last() {
            MediaModel::Png(b64) => match standard_base64(trim(b64)) {
                Ok(bytes) => r.push(OutputModel::Png(bytes)),
                Err(e) => r.push(OutputModel::Text("<png decode error: "@ + e + ">"@)),
            },
            MediaModel::Plain(t) => if png {
                r
            } else {
                r.push(OutputModel::Text(t))
            },
            MediaModel::Other => r,
        }
    }
}

/// Appends the outputs of a media bundle: decoded PNGs, and plain text only when there
/// is no PNG (a figure's text placeholder is dropped).
pub fn collect_media(media: &[MediaItem], outputs: &mut Vec<Output>)
    ensures
        final(outputs)@.map_values(|o: Output| o@) == old(outputs)@.map_values(|o: Output| o@)
            + media_outputs(media@.map_values(|m: MediaItem| m@), has_png(media@.map_values(|m: MediaItem| m@))),
{
    let ghost mv = media@.map_values(|m: MediaItem| m@);
    let mut png = false;
    for i in 0..media.len()
        invariant
            mv == media@.map_values(|m: MediaItem| m@),
            png == exists|k: int| 0 <= k < i && #[trigger] mv[k] is Png,
    {
        match &media[i] {
            MediaItem::Png(_) => {
                assert(mv[i as int] is Png);
                png = true;
            },
            _ => {},
        }
    }
    assert(png == has_png(mv));
    let ghost start = old(outputs)@.map_values(|o: Output| o@);
    assert(mv.take(0) =~= Seq::<MediaModel>::empty());
    for i in 0..media.len()
        invariant
            mv == media@.map_values(|m: MediaItem| m@),
            png == has_png(mv),
            start == old(outputs)@.map_values(|o: Output| o@),
            outputs@.map_values(|o: Output| o@) == start + media_outputs(mv.take(i as int), png),
    {
        assert(mv.take(i + 1).drop_last() == mv.take(i as int));
        assert(mv.take(i + 1).last() == mv[i as int]);
        let ghost before = outputs@;
        let ghost r = media_outputs(mv.take(i as int), png);
        assert(mv[i as int] == media@[i as int]@);
        match &media[i] {
            MediaItem::Png(b64) => {
                let cs = chars_of(b64.as_str());
                let t = string_of(trim_chars(cs.as_slice()).as_slice());
                match decode_standard_base64(t.as_str()) {
                    Ok(bytes) => {
                        let o = Output::Png(bytes);
                        assert(o@ == OutputModel::Png(bytes@));
                        outputs.push(o);
                        assert(outputs@.map_values(|o: Output| o@) =~= before.map_values(
                            |o: Output| o@,
                        ).push(OutputModel::Png(bytes@)));
                    },
                    Err(e) => {
                        let mut msg = String::from_str("<png decode error: ");
                        msg.append(e.as_str());
                        msg.append(">");
                        let o = Output::Text(msg);
                        outputs.push(o);
                        assert(outputs@.map_values(|o: Output| o@) =~= before.map_values(
                            |o: Output| o@,
                        ).push(OutputModel::Text("<png decode error: "@ + e@ + ">"@)));
                    },
                }
            },
            MediaItem::Plain(t) => {
                if !png {
                    let o = Output::Text(t.clone());
                    outputs.push(o);
                    assert(outputs@.map_values(|o: Output| o@) =~= before.map_values(
                        |o: Output| o@,
                    ).push(OutputModel::Text(t@)));
                }
            },
            MediaItem::Other => {},
        }
        assert(outputs@.map_values(|o: Output| o@) =~= start + media_outputs(
            mv.take(i + 1),
            png,
        ));
    }
    assert(mv.take(media.len() as int) == mv);
}

/// An iopub message's content, as the notebook reads it.
pub enum IopubContent {
    Stream { name: String, text: String },
    ExecuteResult(Vec<MediaItem>),
    DisplayData(Vec<MediaItem>),
    Error { ename: String, evalue: String, traceback: Vec<String> },
    /// A status message; `idle` when the execution state is idle.
    Status { idle: bool },
    Other,
}

/// An iopub message: the id of the request it answers, if any, and its content.
pub struct IopubMessage {
    pub parent_msg_id: Option<String>,
    pub content: IopubContent,
}

/// The event a message of the kernel's iopub channel gives for the request `msg_id`:
/// none for other requests; a stream chunk or error as an output; for a result or
/// display, the first output of its bundle; `Idle` for an idle status; none otherwise.
pub open spec fn event_of(msg: IopubMessage, msg_id: Seq<char>) -> Option<Result<OutputModel, ()>> {
    if !(msg.parent_msg_id matches Some(p) && p@ == msg_id) {
        None
    } else {
        match msg.content {
            IopubContent::Stream { name, text } => Some(
                Ok(OutputModel::Stream { name: name@, text: text@ }),
            ),
            IopubContent::ExecuteResult(m) => first_of(
                media_outputs(m@.map_values(|x: MediaItem| x@), has_png(m@.map_values(|x: MediaItem| x@))),
            ),
            IopubContent::DisplayData(m) => first_of(
                media_outputs(m@.map_values(|x: MediaItem| x@), has_png(m@.map_values(|x: MediaItem| x@))),
            ),
            IopubContent::Error { ename, evalue, traceback } => Some(
                Ok(
                    OutputModel::Error {
                        ename: ename@,
                        evalue: evalue@,
                        traceback: traceback@.map_values(|t: String| t@),
                    },
                ),
            ),
            IopubContent::Status { idle } => if idle {
                Some(Err(()))
            } else {
                None
            },
            IopubContent::Other => None,
        }
    }
}

pub open spec fn first_of(outs: Seq<OutputModel>) -> Option<Result<OutputModel, ()>> {
    if outs.len() > 0 {
        Some(Ok(outs[0]))
    } else {
        None
    }
}

/// A cell event as the value `event_of` describes: an output by its content, `Idle`
/// as `Err(())`.
pub open spec fn event_model(e: Option<CellEvent>) -> Option<Result<OutputModel, ()>> {
    match e {
        Some(CellEvent::Output(o)) => Some(Ok(o@)),
        Some(CellEvent::Idle) => Some(Err(())),
        None => None,
    }
}

fn str_eq(a: &str, b: &str) -> (r: bool)
    ensures
        r == (a@ == b@),
{
    let x = chars_of(a);
    crate::chars::chars_eq_str(x.as_slice(), b)
}

fn first_output(outs: Vec<Output>) -> (r: Option<CellEvent>)
    ensures
        event_model(r) == first_of(outs@.map_values(|o: Output| o@)),
{
    let mut outs = outs;
    if outs.len() > 0 {
        let o = outs.remove(0);
        Some(CellEvent::Output(o))
    } else {
        None
    }
}

/// The event an iopub message gives for the cell run whose request is `msg_id`.
pub fn cell_event(msg: IopubMessage, msg_id: &str) -> (r: Option<CellEvent>)
    ensures
        event_model(r) == event_of(msg, msg_id@),
{
    let ghost m = msg;
    let ours = match &msg.parent_msg_id {
        Some(p) => str_eq(p.as_str(), msg_id),
        None => false,
    };
    if !ours {
        return None;
    }
    match msg.content {
        IopubContent::Stream { name, text } => Some(CellEvent::Output(Output::Stream { name, text })),
        IopubContent::ExecuteResult(media) => {
            let mut outs: Vec<Output> = Vec::new();
            collect_media(media.as_slice(), &mut outs);
            assert(outs@.map_values(|o: Output| o@) =~= Seq::<OutputModel>::empty() + media_outputs(
                media@.map_values(|x: MediaItem| x@),
                has_png(media@.map_values(|x: MediaItem| x@)),
            ));
            first_output(outs)
        },
        IopubContent::DisplayData(media) => {
            let mut outs: Vec<Output> = Vec::new();
            collect_media(media.as_slice(), &mut outs);
            assert(outs@.map_values(|o: Output| o@) =~= Seq::<OutputModel>::empty() + media_outputs(
                media@.map_values(|x: MediaItem| x@),
                has_png(media@.map_values(|x: MediaItem| x@)),
            ));
            first_output(outs)
        },
        IopubContent::Error { ename, evalue, traceback } => Some(
            CellEvent::Output(Output::Error { ename, evalue, traceback }),
        ),
        IopubContent::Status { idle } => if idle {
            Some(CellEvent::Idle)
        } else {
            None
        },
        IopubContent::Other => None,
    }
}

/// Whether some output is a stream, and whether some output is a PNG figure.
pub open spec fn kinds_seen(outputs: Seq<OutputModel>) -> (bool, bool) {
    (
        exists|i: int| 0 <= i < outputs.len() && outputs[i] is Stream,
        exists|i: int| 0 <= i < outputs.len() && outputs[i] is Png,
    )
}

/// Which kinds of output a run produced: (a stream was printed, a figure was shown).
pub fn output_kinds(outputs: &[Output]) -> (r: (bool, bool))
    ensures
        r == kinds_seen(outputs@.map_values(|o: Output| o@)),
{
    let ghost ov = outputs@.map_values(|o: Output| o@);
    let mut has_stream = false;
    let mut has_png = false;
    for i in 0..outputs.len()
        invariant
            ov == outputs@.map_values(|o: Output| o@),
            has_stream == (exists|k: int| 0 <= k < i && ov[k] is Stream),
            has_png == (exists|k: int| 0 <= k < i && ov[k] is Png),
    {
        match &outputs[i] {
            Output::Stream { .. } => {
                has_stream = true;
            },
            Output::Png(_) => {
                has_png = true;
            },
            _ => {},
        }
        assert(ov[i as int] == outputs@[i as int]@);
    }
    (has_stream, has_png)
}

/// One event of a run whose outputs are being collected: an output is kept, `Idle`
/// ends the run (the result), nothing else changes anything.
pub fn collect_event(outputs: &mut Vec<Output>, event: Option<CellEvent>) -> (done: bool)
    ensures
        done == (event matches Some(CellEvent::Idle)),
        final(outputs)@ == (match event {
            Some(CellEvent::Output(o)) => old(outputs)@.push(o),
            _ => old(outputs)@,
        }),
{
    match event {
        Some(CellEvent::Output(o)) => {
            outputs.push(o);
            false
        },
        Some(CellEvent::Idle) => true,
        None => false,
    }
}

} // verus!
