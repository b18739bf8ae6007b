//! Image preview: the media type that the path suggests and the address
//! under which the bytes are served.

use crate::projection::{
    Confidence, Fetch, Fetched, Projection, ProjectionError, ProjectionOutput, Resource,
};
use vstd::prelude::*;

verus! {

pub struct ImagePreview;

/// The extensions of files that are shown as images.
pub open spec fn image_extension(ext: Seq<char>) -> bool {
    ||| ext == "png"@
    ||| ext == "jpg"@
    ||| ext == "jpeg"@
    ||| ext == "gif"@
    ||| ext == "webp"@
    ||| ext == "svg"@
}

/// Whether files with this extension are shown as images.
pub fn is_image_extension(ext: &str) -> (r: bool)
    ensures
        r == image_extension(ext@),
{
    ext.eq("png") || ext.eq("jpg") || ext.eq("jpeg") || ext.eq("gif") || ext.eq("webp") || ext.eq(
        "svg",
    )
}

/// The score of the image preview: 1000 for a file with an image
/// extension, 0 otherwise.
pub open spec fn image_score(is_dir: bool, extension: Option<Seq<char>>) -> nat {
    if is_dir {
        0
    } else {
        match extension {
            Some(ext) => if image_extension(ext) {
                1000
            } else {
                0
            },
            None => 0,
        }
    }
}

/// The media type that the table of known extensions gives for a path,
/// if it gives one. It depends on the path's text alone.
pub uninterp spec fn guessed_media_type(path: Seq<char>) -> Option<Seq<char>>;

/// `mime_guess::from_path(path).first()`, printed as text: the first media
/// type that the crate's table holds for the path's extension, or nothing
/// where the path has no extension or the table does not know it.
#[verifier::external_body]
fn guess_media_type(path: &str) -> (r: Option<String>)
    ensures
        match guessed_media_type(path@) {
            Some(m) => r matches Some(found) && found@ == m,
            None => r is None,
        },
{
    match mime_guess::from_path(path).first() {
        Some(m) => Some(m.to_string()),
        None => None,
    }
}

/// The media type to announce for a guess: the guess itself, or that of
/// arbitrary bytes where there is none.
pub open spec fn media_type_or_default(guess: Option<Seq<char>>) -> Seq<char> {
    match guess {
        Some(m) => m,
        None => "application/octet-stream"@,
    }
}

/// Chooses the media type to announce for a guess.
pub fn announce(guess: Option<String>) -> (m: String)
    ensures
        m@ == media_type_or_default(
            match guess {
                Some(g) => Some(g@),
                None => None,
            },
        ),
{
    match guess {
        Some(g) => g,
        None => "application/octet-stream".to_owned(),
    }
}

/// The media type under which the file at `path` is served.
pub fn media_type_for(path: &str) -> (m: String)
    ensures
        m@ == media_type_or_default(guessed_media_type(path@)),
{
    announce(guess_media_type(path))
}

/// The address under which the bytes of `path` are served.
pub open spec fn raw_url(path: Seq<char>) -> Seq<char> {
    "/api/files/raw/"@ + path
}

impl ImagePreview {
    /// Renders the preview of an image: no byte is read.
    pub fn render(resource: &Resource) -> (out: ProjectionOutput)
        ensures
            out matches ProjectionOutput::Image { mime_type, url } && mime_type@
                == media_type_or_default(guessed_media_type(resource.path@)) && url@ == raw_url(
                resource.path@,
            ),
    {
        let mime_type = media_type_for(resource.path.as_str());
        let mut url = "/api/files/raw/".to_owned();
        url.append(resource.path.as_str());
        ProjectionOutput::Image { mime_type, url }
    }
}

impl Projection for ImagePreview {
    fn id(&self) -> (r: &str)
        ensures
            r@ == "image.preview"@,
    {
        "image.preview"
    }

    fn name(&self) -> (r: &str)
        ensures
            r@ == "Image Preview"@,
    {
        "Image Preview"
    }

    fn confidence(&self, resource: &Resource) -> (c: Confidence)
        ensures
            c.value() == image_score(resource.is_dir, resource.extension_text()),
    {
        if resource.is_dir {
            return Confidence::from_permille(0);
        }
        match &resource.extension {
            Some(ext) => {
                if is_image_extension(ext.as_str()) {
                    Confidence::from_permille(1000)
                } else {
                    Confidence::from_permille(0)
                }
            },
            None => Confidence::from_permille(0),
        }
    }

    fn needs(&self, resource: &Resource) -> (f: Fetch)
        ensures
            f == Fetch::Nothing,
    {
        Fetch::Nothing
    }

    fn project(&self, resource: &Resource, fetched: Fetched) -> (r: Result<
        ProjectionOutput,
        ProjectionError,
    >)
        ensures
            r matches Ok(ProjectionOutput::Image { mime_type, url }) && mime_type@
                == media_type_or_default(guessed_media_type(resource.path@)) && url@ == raw_url(
                resource.path@,
            ),
    {
        Ok(ImagePreview::render(resource))
    }
}

} // verus!
