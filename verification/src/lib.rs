pub mod annotate;
pub mod api_key;
pub mod audio;
pub mod cloud;
pub mod ocr;
pub mod overlay;
pub mod powershell;
pub mod recording;
pub mod text;
pub mod windows_ptt_hook;
