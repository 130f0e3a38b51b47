use rwa_tokens::doc_manager::{
    document_exists, get_all_documents, get_document, get_document_count, remove_document,
    set_document, DocumentError, DocumentRegistry,
};

/// A stand-in for a content hash: every byte derived from the content.
fn create_test_hash(data: &str) -> [u8; 32] {
    let mut out = [0u8; 32];
    for (i, b) in data.bytes().enumerate() {
        out[i % 32] = out[i % 32].wrapping_mul(31).wrapping_add(b);
    }
    out
}

fn create_test_name(name: &str) -> [u8; 32] {
    let mut name_bytes = [0u8; 32];
    let slice = name.as_bytes();
    let n = std::cmp::min(slice.len(), 32);
    name_bytes[..n].copy_from_slice(&slice[..n]);
    name_bytes
}

#[test]
fn set_document_success() {
    let mut s = DocumentRegistry::new();
    let name = create_test_name("test_doc");
    let uri = String::from("https://example.com/doc.pdf");
    let hash = create_test_hash("document content");
    set_document(&mut s, &name, &uri, &hash, 0);
    let stored = get_document(&s, &name).unwrap();
    assert_eq!(stored.uri, uri);
    assert_eq!(stored.document_hash, hash);
    assert_eq!(stored.timestamp, 0);
}

#[test]
fn set_document_update_existing() {
    let mut s = DocumentRegistry::new();
    let name = create_test_name("test_doc");
    let uri1 = String::from("https://example.com/doc_v1.pdf");
    let hash1 = create_test_hash("document content v1");
    let uri2 = String::from("https://example.com/doc_v2.pdf");
    let hash2 = create_test_hash("document content v2");
    set_document(&mut s, &name, &uri1, &hash1, 5);
    let doc1 = get_document(&s, &name).unwrap();
    set_document(&mut s, &name, &uri2, &hash2, 9);
    let doc2 = get_document(&s, &name).unwrap();
    assert_eq!(doc2.uri, uri2);
    assert_eq!(doc2.document_hash, hash2);
    assert!(doc2.timestamp >= doc1.timestamp);
    assert_eq!(get_document_count(&s), 1);
}

#[test]
fn get_document_not_found() {
    let s = DocumentRegistry::new();
    let r = get_document(&s, &create_test_name("nonexistent"));
    assert_eq!(r, Err(DocumentError::DocumentNotFound));
    assert_eq!(r.unwrap_err().code(), 380);
}

#[test]
fn remove_document_success() {
    let mut s = DocumentRegistry::new();
    let name = create_test_name("test_doc");
    let uri = String::from("https://example.com/doc.pdf");
    set_document(&mut s, &name, &uri, &create_test_hash("document content"), 0);
    assert!(document_exists(&s, &name));
    assert_eq!(get_document_count(&s), 1);
    remove_document(&mut s, &name).unwrap();
    assert!(!document_exists(&s, &name));
    assert_eq!(get_document_count(&s), 0);
}

#[test]
fn remove_document_not_found() {
    let mut s = DocumentRegistry::new();
    let r = remove_document(&mut s, &create_test_name("nonexistent"));
    assert_eq!(r, Err(DocumentError::DocumentNotFound));
    assert_eq!(r.unwrap_err().code(), 380);
}

#[test]
fn get_all_documents_empty() {
    let s = DocumentRegistry::new();
    assert_eq!(get_all_documents(&s).len(), 0);
}

#[test]
fn get_all_documents_multiple() {
    let mut s = DocumentRegistry::new();
    let names = [create_test_name("doc1"), create_test_name("doc2"), create_test_name("doc3")];
    for (i, n) in names.iter().enumerate() {
        let uri = format!("https://example.com/doc{}.pdf", i + 1);
        let hash = create_test_hash(&format!("document {} content", i + 1));
        set_document(&mut s, n, &uri, &hash, 0);
    }
    let documents = get_all_documents(&s);
    assert_eq!(documents.len(), 3);
    let found: Vec<[u8; 32]> = documents.iter().map(|(n, _)| *n).collect();
    for n in names.iter() {
        assert!(found.contains(n));
    }
}

#[test]
fn get_all_documents_after_removal() {
    let mut s = DocumentRegistry::new();
    let name1 = create_test_name("doc1");
    let name2 = create_test_name("doc2");
    set_document(&mut s, &name1, &String::from("https://example.com/doc1.pdf"), &create_test_hash("document 1 content"), 0);
    set_document(&mut s, &name2, &String::from("https://example.com/doc2.pdf"), &create_test_hash("document 2 content"), 0);
    assert_eq!(get_document_count(&s), 2);
    remove_document(&mut s, &name1).unwrap();
    let documents = get_all_documents(&s);
    assert_eq!(documents.len(), 1);
    assert_eq!(documents[0].0, name2);
    assert_eq!(get_document_count(&s), 1);
}

#[test]
fn document_exists_functionality() {
    let mut s = DocumentRegistry::new();
    let name = create_test_name("test_doc");
    assert!(!document_exists(&s, &name));
    set_document(&mut s, &name, &String::from("https://example.com/doc.pdf"), &create_test_hash("document content"), 0);
    assert!(document_exists(&s, &name));
    remove_document(&mut s, &name).unwrap();
    assert!(!document_exists(&s, &name));
}

#[test]
fn document_count_tracking() {
    let mut s = DocumentRegistry::new();
    assert_eq!(get_document_count(&s), 0);
    let name1 = create_test_name("doc1");
    let name2 = create_test_name("doc2");
    let hash1 = create_test_hash("document 1 content");
    set_document(&mut s, &name1, &String::from("https://example.com/doc1.pdf"), &hash1, 0);
    assert_eq!(get_document_count(&s), 1);
    set_document(&mut s, &name2, &String::from("https://example.com/doc2.pdf"), &create_test_hash("document 2 content"), 0);
    assert_eq!(get_document_count(&s), 2);
    set_document(&mut s, &name1, &String::from("https://example.com/doc1_updated.pdf"), &hash1, 0);
    assert_eq!(get_document_count(&s), 2);
    remove_document(&mut s, &name1).unwrap();
    assert_eq!(get_document_count(&s), 1);
    remove_document(&mut s, &name2).unwrap();
    assert_eq!(get_document_count(&s), 0);
}

#[test]
fn documents_keep_attachment_order_and_timestamps() {
    let mut s = DocumentRegistry::new();
    let a = create_test_name("a");
    let b = create_test_name("b");
    set_document(&mut s, &a, &String::from("u1"), &[1u8; 32], 10);
    set_document(&mut s, &b, &String::from("u2"), &[2u8; 32], 20);
    set_document(&mut s, &a, &String::from("u3"), &[3u8; 32], 30);
    let all = get_all_documents(&s);
    assert_eq!(all[0].0, a);
    assert_eq!(all[0].1.uri, "u3");
    assert_eq!(all[0].1.timestamp, 30);
    assert_eq!(all[1].0, b);
    assert_eq!(all[1].1.timestamp, 20);
}

#[test]
fn set_then_remove_restores_the_list() {
    let mut s = DocumentRegistry::new();
    set_document(&mut s, &create_test_name("kept"), &String::from("u"), &[1u8; 32], 0);
    let before = get_all_documents(&s);
    let name = create_test_name("new");
    set_document(&mut s, &name, &String::from("v"), &[2u8; 32], 5);
    remove_document(&mut s, &name).unwrap();
    assert_eq!(get_all_documents(&s), before);
    assert_eq!(get_document_count(&s), 1);
}
