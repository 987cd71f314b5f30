use fbd::io::{IoFailure, IoKind};
use fbd::path::FsPath;
use fbd::replace::{
    replacement_renamed, replacement_written, start_replace, ReplaceStage, ReplaceStep,
};

fn full() -> IoFailure {
    IoFailure { kind: IoKind::Other, message: "disk full".into() }
}

#[test]
fn a_file_is_written_beside_and_then_renamed() {
    let (path, temp) = (FsPath::new("/d/f"), FsPath::new("/d/.f.tmp.7"));
    let step = start_replace(&path, temp.clone());
    assert_eq!(step, ReplaceStep::Write { temp: temp.clone(), path: path.clone() });
    let step = replacement_written(temp.clone(), path.clone(), Ok(()));
    assert_eq!(step, ReplaceStep::Rename { temp, path });
    assert_eq!(replacement_renamed(Ok(())), ReplaceStep::Done);
}

#[test]
fn a_failure_tells_where_it_happened() {
    let (path, temp) = (FsPath::new("/d/f"), FsPath::new("/d/.f.tmp.7"));
    assert_eq!(
        replacement_written(temp, path, Err(full())),
        ReplaceStep::Failed { stage: ReplaceStage::Write, failure: full() }
    );
    assert_eq!(
        replacement_renamed(Err(full())),
        ReplaceStep::Failed { stage: ReplaceStage::Rename, failure: full() }
    );
}
