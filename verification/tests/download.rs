use cpanel_nas_backup::checksum::write_sha256;
use cpanel_nas_backup::download::{
    Download, NextRead, Received, SizeMismatch, BUFFER_SIZE, PROGRESS_STEP,
};

fn receive(expected: usize, chunks: &[&[u8]]) -> Result<String, SizeMismatch> {
    let mut download = Download::new(expected);
    for chunk in chunks {
        download.accept(chunk);
    }
    download.finish()
}

const ABC: &str = "ba7816bf8f01cfea414140de5dae2223b00361a396177a9cb410ff61f20015ad";

#[test]
fn checksum_of_known_messages() {
    assert_eq!(receive(3, &[b"abc"]).unwrap(), ABC);
    assert_eq!(
        receive(0, &[]).unwrap(),
        "e3b0c44298fc1c149afbf4c8996fb92427ae41e4649b934ca495991b7852b855"
    );
}

#[test]
fn chunking_does_not_matter() {
    assert_eq!(receive(3, &[b"a", b"b", b"c"]).unwrap(), ABC);
    assert_eq!(receive(0, &[b"ab", b"c"]).unwrap(), ABC);
}

#[test]
fn reads_are_limited_to_what_is_still_expected() {
    let mut download = Download::new(BUFFER_SIZE + 10);
    assert_eq!(download.next_read(), NextRead::Read { limit: 65536 });
    download.accept(&vec![0; BUFFER_SIZE]);
    assert_eq!(download.next_read(), NextRead::Read { limit: 10 });
    assert_eq!(download.accept(&[0; 4]), Received::Taken { log: false });
    assert_eq!(download.next_read(), NextRead::Read { limit: 6 });
    assert_eq!(download.accept(&[0; 6]), Received::Taken { log: true });
    assert_eq!(download.next_read(), NextRead::Complete);
    assert_eq!(download.downloaded(), BUFFER_SIZE + 10);
    assert!(download.finish().is_ok());
}

#[test]
fn unknown_size_reads_until_the_end() {
    let mut download = Download::new(0);
    assert_eq!(download.next_read(), NextRead::Read { limit: 65536 });
    download.accept(b"abc");
    assert_eq!(download.next_read(), NextRead::Read { limit: 65536 });
    assert_eq!(download.accept(b""), Received::Ended);
    assert_eq!(download.finish().unwrap(), ABC);
}

#[test]
fn short_transfer_is_an_error() {
    let mismatch = receive(4, &[b"abc", b""]).unwrap_err();
    assert_eq!(mismatch, SizeMismatch { downloaded: 3, expected: 4 });
    assert_eq!(mismatch.message(), "downloaded 3 bytes, expected 4");
}

#[test]
fn progress_is_due_at_every_step() {
    let mut download = Download::new(0);
    let chunk = vec![0_u8; BUFFER_SIZE];
    let per_step = PROGRESS_STEP as usize / BUFFER_SIZE;
    for i in 1..=2 * per_step {
        let log = i % per_step == 0;
        assert_eq!(download.accept(&chunk), Received::Taken { log });
    }
}

#[test]
fn checksum_file_is_what_sha256sum_reads() {
    let file = write_sha256("/backups/backup-1.tar.gz", ABC).unwrap();
    assert_eq!(file.path, "/backups/backup-1.tar.gz.sha256");
    assert_eq!(file.text, format!("{ABC}  backup-1.tar.gz\n"));
    assert_eq!(&file.text[..64], ABC);
    assert_eq!(&file.text[66..], "backup-1.tar.gz\n");
    let error = write_sha256("/backups/..", ABC).unwrap_err();
    assert_eq!(error.message(), "invalid backup filename /backups/..");
}
