//! Command-line settings and their validation.

use vstd::prelude::*;

use crate::cli::Cli;
use crate::error::{AppError, PathStatus};
use crate::text::{ascii_lowercase, chars_of, is_ws, to_ascii_lowercase, trim};

verus! {

/// Translation API used when none is given.
pub const DEFAULT_BASE_URL: &'static str = "https://tmt.ilprl.ku.edu.np/lang-translate";

/// Largest input file accepted, in bytes.
pub const MAX_FILE_SIZE_BYTES: u64 = 1_000_000;

/// Largest sentence sent in one request, in UTF-8 bytes.
pub const MAX_REQUEST_TEXT_BYTES: usize = 5_000;

/// Validated settings of a translation run.
#[derive(Debug, Clone)]
pub struct RuntimeConfig {
    pub base_url: String,
    pub api_token: String,
    pub concurrency: usize,
    pub rate_limit_ms: Option<u64>,
    pub max_retries: u32,
    pub font_path: Option<String>,
    pub pdf_dpi: u32,
    pub pdf_jpeg_quality: u8,
    pub debug_bboxes: bool,
}

/// The API token to use: the command-line one, else the one from the
/// environment.
pub open spec fn chosen_token(cli: Cli, env_token: Option<String>) -> Option<String> {
    match cli.api_token {
        Some(t) => Some(t),
        None => env_token,
    }
}

/// Whether a token is present and not blank.
pub open spec fn token_ok(t: Option<String>) -> bool {
    match t {
        Some(s) => trim(s@).len() > 0,
        None => false,
    }
}

/// Whether the two language codes are equal ignoring ASCII case.
pub open spec fn same_language(a: Seq<char>, b: Seq<char>) -> bool {
    ascii_lowercase(a) == ascii_lowercase(b)
}

/// The message of an `InvalidArgument` error, if one is raised by `message`.
pub open spec fn invalid_argument(r: Result<RuntimeConfig, AppError>, message: Seq<char>) -> bool {
    r matches Err(AppError::InvalidArgument { message: m }) && m@ == message
}

fn is_blank(s: &String) -> (b: bool)
    ensures
        b == (trim(s@).len() == 0),
{
    let c = chars_of(s.as_str());
    let k = crate::text::skip_ws(&c, 0);
    proof {
        assert(c@.skip(0) =~= c@);
        crate::text::lemma_trim_empty_iff_all_ws(c@);
        if k < c.len() {
            assert(!is_ws(c@[k as int]));
        }
    }
    k == c.len()
}

fn eq_ignore_ascii_case(a: &String, b: &String) -> (r: bool)
    ensures
        r == same_language(a@, b@),
{
    let x = to_ascii_lowercase(&chars_of(a.as_str()));
    let y = to_ascii_lowercase(&chars_of(b.as_str()));
    crate::text::chars_equal(&x, &y)
}

fn message_with_path(prefix: &str, path: &String) -> (s: String)
    ensures
        s@ == prefix@ + path@,
{
    let mut v = chars_of(prefix);
    let p = chars_of(path.as_str());
    let mut i: usize = 0;
    let ghost start = v@;
    while i < p.len()
        invariant
            i <= p.len(),
            v@ == start + p@.take(i as int),
        decreases p.len() - i,
    {
        v.push(p[i]);
        i = i + 1;
        assert(v@ =~= start + p@.take(i as int));
    }
    assert(p@.take(p.len() as int) =~= p@);
    crate::text::string_from_chars(v.as_slice())
}

impl RuntimeConfig {
    /// Validates the command line. `env_token` is the `TMT_API_TOKEN`
    /// environment variable and `font_status` what the file system says
    /// about the font path (looked at only when one is given). The checks run
    /// in this order: a non-blank token, concurrency and retries of at least
    /// one, different languages, a non-zero DPI, a JPEG quality in 1..=100,
    /// and an existing font file.
    pub fn from_cli(cli: &Cli, env_token: Option<String>, font_status: PathStatus) -> (r: Result<
        RuntimeConfig,
        AppError,
    >)
        ensures
            !token_ok(chosen_token(*cli, env_token)) <==> r matches Err(AppError::MissingApiToken),
            token_ok(chosen_token(*cli, env_token)) ==> {
                if cli.concurrency == 0 {
                    invalid_argument(r, "concurrency must be >= 1"@)
                } else if cli.max_retries == 0 {
                    invalid_argument(r, "max-retries must be >= 1"@)
                } else if same_language(cli.src_lang@, cli.tgt_lang@) {
                    invalid_argument(r, "src_lang and tgt_lang must differ"@)
                } else if cli.dpi == 0 {
                    invalid_argument(r, "dpi must be >= 1"@)
                } else if cli.jpeg_quality < 1 || cli.jpeg_quality > 100 {
                    invalid_argument(r, "jpeg-quality must be between 1 and 100"@)
                } else if cli.font_path is Some && font_status == PathStatus::Missing {
                    invalid_argument(r, "font path does not exist: "@ + cli.font_path->0@)
                } else if cli.font_path is Some && font_status == PathStatus::NotAFile {
                    invalid_argument(r, "font path is not a file: "@ + cli.font_path->0@)
                } else {
                    r matches Ok(c) && {
                        &&& c.base_url@ == cli.base_url@
                        &&& c.api_token@ == chosen_token(*cli, env_token)->0@
                        &&& c.concurrency == cli.concurrency
                        &&& c.rate_limit_ms == cli.rate_limit_ms
                        &&& c.max_retries == cli.max_retries
                        &&& c.font_path == cli.font_path
                        &&& c.pdf_dpi == cli.dpi
                        &&& c.pdf_jpeg_quality == cli.jpeg_quality
                        &&& !c.debug_bboxes
                    }
                }
            },
    {
        let token = match &cli.api_token {
            Some(t) => t.clone(),
            None => match env_token {
                Some(t) => t,
                None => {
                    return Err(AppError::MissingApiToken);
                },
            },
        };
        if is_blank(&token) {
            return Err(AppError::MissingApiToken);
        }
        if cli.concurrency == 0 {
            return Err(AppError::InvalidArgument { message: "concurrency must be >= 1".to_owned() });
        }
        if cli.max_retries == 0 {
            return Err(AppError::InvalidArgument { message: "max-retries must be >= 1".to_owned() });
        }
        if eq_ignore_ascii_case(&cli.src_lang, &cli.tgt_lang) {
            return Err(
                AppError::InvalidArgument {
                    message: "src_lang and tgt_lang must differ".to_owned(),
                },
            );
        }
        if cli.dpi == 0 {
            return Err(AppError::InvalidArgument { message: "dpi must be >= 1".to_owned() });
        }
        if cli.jpeg_quality < 1 || cli.jpeg_quality > 100 {
            return Err(
                AppError::InvalidArgument {
                    message: "jpeg-quality must be between 1 and 100".to_owned(),
                },
            );
        }
        if let Some(path) = &cli.font_path {
            match font_status {
                PathStatus::Missing => {
                    return Err(
                        AppError::InvalidArgument {
                            message: message_with_path("font path does not exist: ", path),
                        },
                    );
                },
                PathStatus::NotAFile => {
                    return Err(
                        AppError::InvalidArgument {
                            message: message_with_path("font path is not a file: ", path),
                        },
                    );
                },
                PathStatus::File { .. } => {},
            }
        }
        Ok(
            RuntimeConfig {
                base_url: cli.base_url.clone(),
                api_token: token,
                concurrency: cli.concurrency,
                rate_limit_ms: cli.rate_limit_ms,
                max_retries: cli.max_retries,
                font_path: cli.font_path.clone(),
                pdf_dpi: cli.dpi,
                pdf_jpeg_quality: cli.jpeg_quality,
                debug_bboxes: false,
            },
        )
    }
}

} // verus!
