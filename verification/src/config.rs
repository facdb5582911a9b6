//! The configuration the pipeline runs with.  Loading and saving the
//! file is plumbing and stays with the binary; the shape, the defaults
//! and the validation rule live here.

use vstd::prelude::*;

use crate::TranscriptorError;

verus! {

/// Transcription job settings.
#[derive(Debug, Clone)]
pub struct TranscriptionConfig {
    /// Default language code, used when the caller names none.
    pub default_language: Option<String>,
    /// Preferred media container.
    pub media_format: String,
    /// Sample rate for audio processing, in hertz.
    pub sample_rate: Option<u32>,
    /// Whether to ask the service to separate speakers.
    pub speaker_identification: bool,
    /// Upper bound on the number of speakers to separate.
    pub max_speakers: Option<u8>,
}

/// Settings for the cloud side: region, staging bucket, job options.
#[derive(Debug, Clone)]
pub struct AwsConfig {
    pub region: String,
    /// Bucket audio is staged in while a job runs.
    pub s3_bucket: String,
    /// Optional key prefix for staged objects.
    pub s3_key_prefix: Option<String>,
    pub transcription: TranscriptionConfig,
}

/// Application-side settings.
#[derive(Debug, Clone)]
pub struct AppConfig {
    /// Directory downloads are staged in; the system default when unset.
    pub temp_dir: Option<String>,
    /// Keep the extracted audio after transcription.
    pub keep_audio: bool,
    /// Output format used when none is asked for.
    pub default_output_format: String,
    pub max_concurrent_jobs: usize,
}

/// Everything the pipeline is configured by.
#[derive(Debug, Clone)]
pub struct Config {
    pub aws: AwsConfig,
    pub app: AppConfig,
}

impl Default for Config {
    /// The configuration a fresh installation starts from.  The bucket
    /// is left empty on purpose: it must be filled in before a run
    /// passes [`Config::validate`].
    fn default() -> (c: Config)
        ensures
            c.aws.region@ == "us-east-1"@,
            c.aws.s3_bucket@ == Seq::<char>::empty(),
            (c.aws.s3_key_prefix matches Some(p) && p@ == "transcriptor/"@),
            c.aws.transcription.default_language is None,
            c.aws.transcription.media_format@ == "mp3"@,
            c.aws.transcription.sample_rate == Some(16000u32),
            !c.aws.transcription.speaker_identification,
            c.aws.transcription.max_speakers is None,
            c.app.temp_dir is None,
            !c.app.keep_audio,
            c.app.default_output_format@ == "text"@,
            c.app.max_concurrent_jobs == 3usize,
    {
        proof {
            reveal_strlit("");
            assert(""@ =~= Seq::<char>::empty());
        }
        Config {
            aws: AwsConfig {
                region: "us-east-1".to_owned(),
                s3_bucket: "".to_owned(),
                s3_key_prefix: Some("transcriptor/".to_owned()),
                transcription: TranscriptionConfig {
                    default_language: None,
                    media_format: "mp3".to_owned(),
                    sample_rate: Some(16000),
                    speaker_identification: false,
                    max_speakers: None,
                },
            },
            app: AppConfig {
                temp_dir: None,
                keep_audio: false,
                default_output_format: "text".to_owned(),
                max_concurrent_jobs: 3,
            },
        }
    }
}

impl Config {
    /// A configuration is usable exactly when a staging bucket is set.
    pub fn validate(&self) -> (r: Result<(), TranscriptorError>)
        ensures
            self.aws.s3_bucket@.len() == 0 ==> (r matches Err(
                TranscriptorError::AwsConfigError(m)) && m@
                == "AWS S3 bucket must be configured"@),
            self.aws.s3_bucket@.len() > 0 ==> r is Ok,
    {
        if self.aws.s3_bucket.as_str().unicode_len() == 0 {
            let mut m = String::new();
            m.append("AWS S3 bucket must be configured");
            proof {
                assert(Seq::<char>::empty() + "AWS S3 bucket must be configured"@
                    =~= "AWS S3 bucket must be configured"@);
            }
            Err(TranscriptorError::AwsConfigError(m))
        } else {
            Ok(())
        }
    }
}

} // verus!
