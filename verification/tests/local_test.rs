//! Differential round-trip tests: random field sets pushed through each
//! encoder and read back through each decoder access style.
use std::collections::HashMap;

use multipart::decode;
use multipart::encode;
use multipart::gen::gen_bool;
use multipart::gen::gen_bytes;
use multipart::gen::gen_string;
use multipart::lazy;
use multipart::lazy::PayloadStream;
use multipart::wire::octet_stream;
use multipart::wire::FieldHeaders;

const MIN_FIELDS: usize = 1;
const MAX_FIELDS: usize = 3;

fn rand_count() -> usize {
    rand::RngExt::random_range(&mut rand::rng(), MIN_FIELDS..MAX_FIELDS)
}

fn rand_mime() -> String {
    let choices = [mime::APPLICATION_OCTET_STREAM, mime::TEXT_PLAIN, mime::IMAGE_PNG];
    let i: usize = rand::RngExt::random_range(&mut rand::rng(), 0..choices.len());
    choices[i].to_string()
}

fn gen_name() -> String {
    String::from_utf8(gen_string()).unwrap()
}

#[derive(Debug, PartialEq, Eq)]
struct FileEntry {
    content_type: String,
    filename: Option<String>,
    data: Vec<u8>,
}

impl FileEntry {
    fn gen() -> FileEntry {
        let filename = if gen_bool() { Some(gen_name()) } else { None };
        let data = if gen_bool() { gen_string() } else { gen_bytes() };
        FileEntry { content_type: rand_mime(), filename, data }
    }

    fn gen_many() -> Vec<FileEntry> {
        (0..rand_count()).map(|_| FileEntry::gen()).collect()
    }
}

#[derive(Debug)]
struct TestFields {
    texts: HashMap<String, String>,
    files: HashMap<String, Vec<FileEntry>>,
}

impl TestFields {
    fn gen() -> TestFields {
        let texts = (0..rand_count()).map(|_| (gen_name(), gen_name())).collect();
        let files = (0..rand_count()).map(|_| (gen_name(), FileEntry::gen_many())).collect();
        TestFields { texts, files }
    }

    fn check_field(&mut self, headers: &FieldHeaders, data: Vec<u8>) {
        let name = String::from_utf8(headers.name.clone()).unwrap();
        if headers.filename.is_none() && headers.content_type.is_none() {
            if let Some(expected) = self.texts.remove(&name) {
                assert_eq!(expected.as_bytes(), &data[..]);
                return;
            }
        }
        let entries = match self.files.get_mut(&name) {
            Some(entries) => entries,
            None => panic!("field {:?} not in original dataset", name),
        };
        let content_type = match &headers.content_type {
            Some(c) => String::from_utf8(c.clone()).unwrap(),
            None => String::from_utf8(octet_stream()).unwrap(),
        };
        let filename =
            headers.filename.as_ref().map(|f| String::from_utf8(f.clone()).unwrap());
        let got = FileEntry { content_type, filename, data };
        let idx = match entries.iter().position(|e| *e == got) {
            Some(idx) => idx,
            None => panic!("entry {:?} not in original dataset {:?}", got, entries),
        };
        entries.remove(idx);
        if entries.is_empty() {
            self.files.remove(&name);
        }
    }

    fn assert_is_empty(&self) {
        assert!(self.texts.is_empty(), "text fields were not exhausted: {:?}", self.texts);
        assert!(self.files.is_empty(), "file fields were not exhausted: {:?}", self.files);
    }
}

fn write_files(m: &mut encode::Multipart, file_name: &str, files: &[FileEntry]) {
    for f in files {
        m.write_stream(
            file_name.as_bytes().to_vec(),
            f.data.clone(),
            f.filename.as_ref().map(|s| s.as_bytes().to_vec()),
            Some(f.content_type.as_bytes().to_vec()),
        )
        .unwrap();
    }
}

fn test_client(fields: &TestFields) -> (Vec<u8>, Vec<u8>, Option<u64>) {
    let mut m = encode::Multipart::new();
    let mut files_iter = fields.files.iter();
    // Intersperse file fields amongst text fields.
    for (name, text) in &fields.texts {
        if let Some((file_name, files)) = files_iter.next() {
            write_files(&mut m, file_name, files);
        }
        m.write_text(name.as_bytes().to_vec(), text.as_bytes().to_vec()).unwrap();
    }
    // Write remaining files.
    for (file_name, files) in files_iter {
        write_files(&mut m, file_name, files);
    }
    m.finish().unwrap();
    let boundary = m.boundary().clone();
    (m.into_body(), boundary, None)
}

fn add_files(m: &mut lazy::Multipart, file_name: &str, files: &[FileEntry]) {
    for f in files {
        m.add_stream(
            file_name.as_bytes().to_vec(),
            PayloadStream::with_len(f.data.clone()),
            f.filename.as_ref().map(|s| s.as_bytes().to_vec()),
            Some(f.content_type.as_bytes().to_vec()),
        )
        .unwrap();
    }
}

fn test_client_lazy(fields: &TestFields) -> (Vec<u8>, Vec<u8>, Option<u64>) {
    let mut m = lazy::Multipart::new();
    let mut files_iter = fields.files.iter();
    for (name, text) in &fields.texts {
        if let Some((file_name, files)) = files_iter.next() {
            add_files(&mut m, file_name, files);
        }
        m.add_text(name.as_bytes().to_vec(), text.as_bytes().to_vec()).unwrap();
    }
    for (file_name, files) in files_iter {
        add_files(&mut m, file_name, files);
    }
    let mut prepared = m.prepare().unwrap();
    let boundary = prepared.boundary().clone();
    let content_len = prepared.content_len();
    let body = prepared.read_to_end();
    if let Some(n) = content_len {
        assert_eq!(n as usize, body.len(), "supplied content length differs from actual");
    }
    (body, boundary, content_len)
}

fn test_server(body: Vec<u8>, boundary: Vec<u8>, content_len: Option<u64>, fields: &mut TestFields) {
    if let Some(n) = content_len {
        assert_eq!(n as usize, body.len(), "supplied content length differs from actual");
    }
    let mut m = decode::Multipart::new(body, boundary, content_len).unwrap();
    while let Some(headers) = m.read_entry().unwrap() {
        let data = m.read_to_end();
        fields.check_field(&headers, data);
    }
}

fn test_server_entry_api(
    body: Vec<u8>,
    boundary: Vec<u8>,
    content_len: Option<u64>,
    fields: &mut TestFields,
) {
    let m = decode::Multipart::new(body, boundary, content_len).unwrap();
    let mut cur = m.into_entry().unwrap();
    while let Some(mut entry) = cur {
        let data = entry.read_to_end();
        fields.check_field(entry.headers(), data);
        cur = entry.next_entry().unwrap();
    }
}

#[test]
fn reg_client_reg_server() {
    let mut fields = TestFields::gen();
    let (body, boundary, content_len) = test_client(&fields);
    test_server(body, boundary, content_len, &mut fields);
    fields.assert_is_empty();
}

#[test]
fn reg_client_entry_server() {
    let mut fields = TestFields::gen();
    let (body, boundary, content_len) = test_client(&fields);
    test_server_entry_api(body, boundary, content_len, &mut fields);
    fields.assert_is_empty();
}

#[test]
fn lazy_client_reg_server() {
    let mut fields = TestFields::gen();
    let (body, boundary, content_len) = test_client_lazy(&fields);
    test_server(body, boundary, content_len, &mut fields);
    fields.assert_is_empty();
}

#[test]
fn lazy_client_entry_server() {
    let mut fields = TestFields::gen();
    let (body, boundary, content_len) = test_client_lazy(&fields);
    test_server_entry_api(body, boundary, content_len, &mut fields);
    fields.assert_is_empty();
}
