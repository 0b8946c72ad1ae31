use parquet_exp::error::{ConfigurationError, WriteError};
use parquet_exp::location::{resolve_sink, SinkKind};

fn unknown(prefix: &str) -> Result<SinkKind, WriteError> {
    Err(WriteError::Configuration(ConfigurationError::UnknownSinkPrefix(prefix.to_owned())))
}

#[test]
fn a_location_without_a_colon_is_a_local_path() {
    assert_eq!(resolve_sink("/tmp/out.parquet"), Ok(SinkKind::LocalFile));
    assert_eq!(resolve_sink("merged.parquet"), Ok(SinkKind::LocalFile));
    assert_eq!(resolve_sink("mem"), Ok(SinkKind::LocalFile));
    assert_eq!(resolve_sink(""), Ok(SinkKind::LocalFile));
    assert_eq!(resolve_sink("données/été.parquet"), Ok(SinkKind::LocalFile));
}

#[test]
fn the_prefix_mem_selects_the_buffer_in_memory() {
    assert_eq!(resolve_sink("mem:"), Ok(SinkKind::Memory));
    assert_eq!(resolve_sink("mem:buffer"), Ok(SinkKind::Memory));
    assert_eq!(resolve_sink("mem:a:b"), Ok(SinkKind::Memory));
}

#[test]
fn any_other_prefix_is_refused_with_its_text() {
    assert_eq!(resolve_sink("s3:bucket/key"), unknown("s3"));
    assert_eq!(resolve_sink(":rest"), unknown(""));
    assert_eq!(resolve_sink("MEM:x"), unknown("MEM"));
    assert_eq!(resolve_sink("memo:x"), unknown("memo"));
    assert_eq!(resolve_sink("me:m:x"), unknown("me"));
    assert_eq!(resolve_sink("C:\\data\\out.parquet"), unknown("C"));
    assert_eq!(resolve_sink("été:x"), unknown("été"));
}
