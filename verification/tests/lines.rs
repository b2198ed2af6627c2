use tiny_basic::code_line::{get_line_number_end, Line};
use tiny_basic::program_storage::ProgramStorage;
use tiny_basic::types::LineIndex;

#[test]
fn test_line_parsing() {
    {
        let line = Line::parse(b"10   PRINT".to_vec()).unwrap();
        assert!(line.index.map(|ix| ix.value()) == Some(10));
        assert!(line.statement == b"PRINT".to_vec());
    }

    {
        let line = Line::parse(b"10".to_vec()).unwrap();
        assert!(line.index.map(|ix| ix.value()) == Some(10));
        assert!(line.statement == b"".to_vec());
    }
}

#[test]
fn test_line_no_number() {
    {
        let input = b"PRINT H".to_vec();
        let line = Line::parse(input.clone()).unwrap();
        assert!(line.index.is_none());
        assert_eq!(line.statement, input);
    }
}

#[test]
fn test_line_with_number() {
    {
        let line = Line::parse(b"220 PRINT H".to_vec()).unwrap();
        assert_eq!(line.index.map(|ix| ix.value()), Some(220));
        assert_eq!(line.statement, b"PRINT H".to_vec());
    }
}

#[test]
fn test_line_with_empty_statement() {
    {
        let line = Line::parse(b"220".to_vec()).unwrap();
        assert_eq!(line.index.map(|ix| ix.value()), Some(220));
        assert!(line.statement.is_empty());
    }
}

#[test]
fn test_get_line_number_end() {
    assert_eq!(get_line_number_end(&b"220 PRINT".to_vec()), Some(3));
    assert_eq!(get_line_number_end(&b"7".to_vec()), Some(1));
    assert_eq!(get_line_number_end(&b"PRINT".to_vec()), None);
    assert_eq!(get_line_number_end(&b"".to_vec()), None);
}

fn ix(n: i16) -> LineIndex {
    LineIndex::try_from(n).unwrap()
}

#[test]
fn test_storage_insert_then_get() {
    let mut storage = ProgramStorage::new();
    storage.insert_line(ix(20), b"PRINT 2".to_vec());
    storage.insert_line(ix(10), b"PRINT 1".to_vec());
    assert_eq!(storage.get_line(ix(10)), Some(b"PRINT 1".to_vec()));
    assert_eq!(storage.get_line(ix(20)), Some(b"PRINT 2".to_vec()));
    assert_eq!(storage.get_line(ix(30)), None);
    storage.insert_line(ix(10), b"PRINT 9".to_vec());
    assert_eq!(storage.get_line(ix(10)), Some(b"PRINT 9".to_vec()));
}

#[test]
fn test_storage_erase() {
    let mut storage = ProgramStorage::new();
    storage.insert_line(ix(10), b"PRINT 1".to_vec());
    storage.erase_line(ix(10));
    assert_eq!(storage.get_line(ix(10)), None);
    // Erasing an absent line is a quiet no-op.
    storage.erase_line(ix(10));
    assert_eq!(storage.get_line(ix(10)), None);
}

#[test]
fn test_storage_successor() {
    let mut storage = ProgramStorage::new();
    storage.insert_line(ix(10), b"A".to_vec());
    storage.insert_line(ix(20), b"B".to_vec());
    storage.insert_line(ix(30), b"C".to_vec());
    assert_eq!(storage.get_following_line_index(ix(10)).map(|i| i.value()), Some(20));
    assert_eq!(storage.get_following_line_index(ix(20)).map(|i| i.value()), Some(30));
    assert_eq!(storage.get_following_line_index(ix(30)), None);
    // A missing pivot still finds the next larger stored index.
    assert_eq!(storage.get_following_line_index(ix(15)).map(|i| i.value()), Some(20));
    assert_eq!(storage.get_first_line_index().map(|i| i.value()), Some(10));
}

#[test]
fn test_storage_iter_ascending() {
    let mut storage = ProgramStorage::new();
    storage.insert_line(ix(30), b"C".to_vec());
    storage.insert_line(ix(10), b"A".to_vec());
    storage.insert_line(ix(20), b"B".to_vec());
    let items = storage.iter();
    let keys: Vec<i16> = items.iter().map(|(i, _)| i.value()).collect();
    assert_eq!(keys, vec![10, 20, 30]);
}

#[test]
fn test_storage_clear() {
    let mut storage = ProgramStorage::new();
    storage.insert_line(ix(10), b"A".to_vec());
    storage.insert_line(ix(20), b"B".to_vec());
    storage.clear();
    assert_eq!(storage.get_first_line_index(), None);
    assert!(storage.iter().is_empty());
}
