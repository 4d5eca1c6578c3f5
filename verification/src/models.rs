//! The model files of live speaker recognition: where they lie, and which of
//! them are still to be downloaded. Files that someone put there by hand are
//! used as they are.
use vstd::prelude::*;
use crate::error::{ErrorModel, SallyError};
use crate::path::{FilePath, PathModel};
use crate::text;

verus! {

// The names are versioned: another default model has another name, so that
// existing installs download it instead of loading the old weights.
pub const SEGMENTATION_FILE: &'static str = "segmentation_pyannote3.onnx";

pub const SPEAKER_FILE: &'static str = "speaker_titanet.onnx";

pub const SEGMENTATION_URL: &'static str =
    "https://huggingface.co/csukuangfj/sherpa-onnx-pyannote-segmentation-3-0/resolve/main/model.onnx";

// The release tag really is spelled "recongition".
pub const SPEAKER_URL: &'static str =
    "https://github.com/k2-fsa/sherpa-onnx/releases/download/speaker-recongition-models/nemo_en_titanet_small.onnx";

/// Where the two models lie.
#[derive(Debug)]
pub struct ModelPaths {
    pub segmentation: FilePath,
    pub speaker: FilePath,
}

/// [`ModelPaths`] by their locations.
pub struct ModelPathsModel {
    pub segmentation: PathModel,
    pub speaker: PathModel,
}

impl View for ModelPaths {
    type V = ModelPathsModel;

    open spec fn view(&self) -> ModelPathsModel {
        ModelPathsModel { segmentation: self.segmentation@, speaker: self.speaker@ }
    }
}

impl Clone for ModelPaths {
    fn clone(&self) -> (r: Self)
        ensures
            r@ == self@,
    {
        ModelPaths { segmentation: self.segmentation.clone(), speaker: self.speaker.clone() }
    }
}

/// The locations of both models in a data folder.
pub open spec fn paths_in(data_dir: PathModel) -> ModelPathsModel {
    ModelPathsModel {
        segmentation: data_dir.joined("models"@).joined(SEGMENTATION_FILE@),
        speaker: data_dir.joined("models"@).joined(SPEAKER_FILE@),
    }
}

pub fn models_dir(data_dir: &FilePath) -> (r: FilePath)
    ensures
        r@ == data_dir@.joined("models"@),
{
    data_dir.join("models")
}

/// Where both models belong.
pub fn model_paths(data_dir: &FilePath) -> (r: ModelPaths)
    ensures
        r@ == paths_in(data_dir@),
{
    let dir = models_dir(data_dir);
    ModelPaths { segmentation: dir.join(SEGMENTATION_FILE), speaker: dir.join(SPEAKER_FILE) }
}

/// The paths, if both model files are present.
pub fn existing_models(
    data_dir: &FilePath,
    segmentation_exists: bool,
    speaker_exists: bool,
) -> (r: Option<ModelPaths>)
    ensures
        r is Some <==> segmentation_exists && speaker_exists,
        r matches Some(paths) ==> paths@ == paths_in(data_dir@),
{
    if segmentation_exists && speaker_exists {
        Some(model_paths(data_dir))
    } else {
        None
    }
}

/// A file to fetch.
#[derive(Debug)]
pub struct Download {
    pub url: String,
    pub dest: FilePath,
}

/// A [`Download`] by its characters.
pub struct DownloadModel {
    pub url: Seq<char>,
    pub dest: PathModel,
}

/// The downloads of a list by their characters.
pub open spec fn downloads_model(v: Seq<Download>) -> Seq<DownloadModel> {
    Seq::new(v.len(), |i: int| DownloadModel { url: v[i].url@, dest: v[i].dest@ })
}

/// A file that is missing is fetched, from the configured address where there
/// is one.
pub open spec fn fetched(
    exists_already: bool,
    url_override: Seq<char>,
    url: Seq<char>,
    dest: PathModel,
) -> Seq<DownloadModel> {
    if exists_already {
        Seq::empty()
    } else {
        seq![
            DownloadModel {
                url: if url_override.len() == 0 {
                    url
                } else {
                    url_override
                },
                dest,
            },
        ]
    }
}

fn chosen(url_override: &str, url: &str) -> (r: String)
    ensures
        r@ == if url_override@.len() == 0 {
            url@
        } else {
            url_override@
        },
{
    if url_override.is_empty() {
        text::owned(url)
    } else {
        text::owned(url_override)
    }
}

/// What has to be fetched so that both models are there: what is missing, and
/// nothing else.
pub fn missing_models(
    data_dir: &FilePath,
    segmentation_exists: bool,
    speaker_exists: bool,
    segmentation_url_override: &str,
    speaker_url_override: &str,
) -> (r: Vec<Download>)
    ensures
        downloads_model(r@) == fetched(
            segmentation_exists,
            segmentation_url_override@,
            SEGMENTATION_URL@,
            paths_in(data_dir@).segmentation,
        ) + fetched(
            speaker_exists,
            speaker_url_override@,
            SPEAKER_URL@,
            paths_in(data_dir@).speaker,
        ),
{
    let paths = model_paths(data_dir);
    let mut out: Vec<Download> = Vec::new();
    if !segmentation_exists {
        out.push(
            Download {
                url: chosen(segmentation_url_override, SEGMENTATION_URL),
                dest: paths.segmentation,
            },
        );
    }
    if !speaker_exists {
        out.push(
            Download { url: chosen(speaker_url_override, SPEAKER_URL), dest: paths.speaker },
        );
    }
    proof {
        assert(downloads_model(out@) =~= fetched(
            segmentation_exists,
            segmentation_url_override@,
            SEGMENTATION_URL@,
            paths_in(data_dir@).segmentation,
        ) + fetched(
            speaker_exists,
            speaker_url_override@,
            SPEAKER_URL@,
            paths_in(data_dir@).speaker,
        ));
    }
    out
}

/// The error of a download that broke off. `what` is the kind of file.
pub fn download_failed(what: &str, detail: &str) -> (e: SallyError)
    ensures
        e@ == ErrorModel::Config(what@ + " download failed: "@ + detail@),
{
    let mut m = text::owned(what);
    m.push_str(" download failed: ");
    m.push_str(detail);
    SallyError::Config(m)
}

/// The error of a download that the server refused.
pub fn download_refused(what: &str, status: &str, url: &str) -> (e: SallyError)
    ensures
        e@ == ErrorModel::Config(
            what@ + " download failed: "@ + ("HTTP "@ + status@ + " for "@ + url@),
        ),
{
    let mut detail = text::owned("HTTP ");
    detail.push_str(status);
    detail.push_str(" for ");
    detail.push_str(url);
    download_failed(what, detail.as_str())
}

/// Model files of earlier versions, which are removed at start.
pub fn stale_models(data_dir: &FilePath) -> (r: Vec<FilePath>)
    ensures
        r@.len() == 2,
        r@[0]@ == data_dir@.joined("models"@).joined("speaker_embedding_campp.onnx"@),
        r@[1]@ == data_dir@.joined("models"@).joined("segmentation_pyannote3.onnx"@),
{
    let dir = models_dir(data_dir);
    let mut out: Vec<FilePath> = Vec::new();
    out.push(dir.join("speaker_embedding_campp.onnx"));
    out.push(dir.join("segmentation_pyannote3.onnx"));
    out
}

/// Nothing is fetched exactly when both models are present: a folder that was
/// filled by hand needs no network.
pub proof fn present_models_are_kept(
    data_dir: PathModel,
    segmentation_exists: bool,
    speaker_exists: bool,
    segmentation_url: Seq<char>,
    speaker_url: Seq<char>,
)
    ensures
        (fetched(
            segmentation_exists,
            segmentation_url,
            SEGMENTATION_URL@,
            paths_in(data_dir).segmentation,
        ) + fetched(speaker_exists, speaker_url, SPEAKER_URL@, paths_in(data_dir).speaker)).len()
            == 0 <==> segmentation_exists && speaker_exists,
{
}

} // verus!
