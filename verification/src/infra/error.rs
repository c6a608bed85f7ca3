//! The library's error type.
//!
//! Technical detail goes to logs only; users see the one sentence that
//! `user_message` gives.

use vstd::prelude::*;

verus! {

/// Upper bound on the UTF-8 size of a lyric text.
pub const MAX_LYRIC_BYTES: usize = 262144;

#[derive(Debug, Clone, PartialEq, Eq)]
pub enum AppError {
    /// File read or write failed (the system's message).
    Io(String),
    TagRead { path: String, reason: String },
    TagWrite { path: String, reason: String },
    /// The format cannot hold lyrics; checked before any write.
    FormatNotWritable { format: String },
    /// Read-back after writing found no lyrics.
    VerifyFailed { path: String },
    /// The file is held open by another program.
    FileLocked { path: String },
    MalformedLyrics(String),
    LyricsTooLarge { bytes: usize },
    /// Network request failed (the client's message).
    Http(String),
    BadResponse(String),
    ProviderUnavailable(String),
    Config(String),
    Cancelled,
    Other(String),
}

pub open spec fn user_message_spec(e: AppError) -> Seq<char> {
    match e {
        AppError::Io(_) => "读写文件时出错，请检查文件是否被占用或权限不足"@,
        AppError::TagRead { .. } => "无法读取该文件的信息，已跳过"@,
        AppError::TagWrite { .. } => "无法写入该文件，已跳过"@,
        AppError::FormatNotWritable { .. } => "这种格式不支持保存歌词"@,
        AppError::VerifyFailed { .. } => "写入未生效，已跳过"@,
        AppError::FileLocked { .. } => "这个文件正被其他程序使用，已跳过"@,
        AppError::MalformedLyrics(_) => "拿到的歌词内容不正常，已跳过"@,
        AppError::LyricsTooLarge { .. } => "拿到的歌词内容过大，已跳过"@,
        AppError::Http(_) | AppError::BadResponse(_) | AppError::ProviderUnavailable(_) =>
            "网络不可用或歌词服务暂时无法访问，请稍后重试"@,
        AppError::Config(_) => "设置保存失败，请检查软件的数据目录是否可写"@,
        AppError::Cancelled => "已停止"@,
        AppError::Other(m) => m@,
    }
}

impl AppError {
    /// One sentence for users, free of technical terms.
    pub fn user_message(&self) -> (r: String)
        ensures
            r@ == user_message_spec(*self),
    {
        match self {
            AppError::Io(_) => "读写文件时出错，请检查文件是否被占用或权限不足".to_owned(),
            AppError::TagRead { .. } => "无法读取该文件的信息，已跳过".to_owned(),
            AppError::TagWrite { .. } => "无法写入该文件，已跳过".to_owned(),
            AppError::FormatNotWritable { .. } => "这种格式不支持保存歌词".to_owned(),
            AppError::VerifyFailed { .. } => "写入未生效，已跳过".to_owned(),
            AppError::FileLocked { .. } => "这个文件正被其他程序使用，已跳过".to_owned(),
            AppError::MalformedLyrics(_) => "拿到的歌词内容不正常，已跳过".to_owned(),
            AppError::LyricsTooLarge { .. } => "拿到的歌词内容过大，已跳过".to_owned(),
            AppError::Http(_) | AppError::BadResponse(_) | AppError::ProviderUnavailable(_) => {
                "网络不可用或歌词服务暂时无法访问，请稍后重试".to_owned()
            },
            AppError::Config(_) => "设置保存失败，请检查软件的数据目录是否可写".to_owned(),
            AppError::Cancelled => "已停止".to_owned(),
            AppError::Other(m) => m.clone(),
        }
    }

    /// Only network-side errors are worth retrying.
    pub fn is_retryable(&self) -> (r: bool)
        ensures
            r == (self is Http || self is BadResponse || self is ProviderUnavailable),
    {
        match self {
            AppError::Http(_) | AppError::BadResponse(_) | AppError::ProviderUnavailable(_) => true,
            _ => false,
        }
    }
}

} // verus!
