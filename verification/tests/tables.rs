use progress_ai::datasets::EmbeddingColumnsError;
use progress_ai::tables::{
    embedding_from_text, embedding_rows, iris_from_text, iris_rows, EmbeddingCsvError, ReadStop,
};

fn strings(values: &[&str]) -> Vec<String> {
    values.iter().map(|value| value.to_string()).collect()
}

fn numbers(rows: &[Vec<String>]) -> Vec<Vec<f64>> {
    rows.iter()
        .map(|row| row.iter().map(|field| field.parse::<f64>().unwrap()).collect())
        .collect()
}

#[test]
fn embedding_csv_loader_reads_labels_and_features() {
    let read = embedding_from_text("path,label,e0,e1\ncat-1.jpg,Cat,0.1,0.2\ndog-1.jpg,Dog,0.8,0.7\n")
        .unwrap();
    assert_eq!(read.stop, ReadStop::Complete);
    let rows = read.rows;
    assert_eq!(numbers(&rows.features), vec![vec![0.1, 0.2], vec![0.8, 0.7]]);
    assert_eq!(rows.labels, vec![0, 1]);
    assert_eq!(rows.class_names, vec!["Cat", "Dog"]);
}

#[test]
fn embedding_tables_are_refused_with_the_first_problem() {
    assert_eq!(
        embedding_from_text("x,y\n1,2\n").err(),
        Some(EmbeddingCsvError::Columns(EmbeddingColumnsError::MissingLabelColumn))
    );
    assert_eq!(
        embedding_from_text("label,file\na,b\n").err(),
        Some(EmbeddingCsvError::Columns(EmbeddingColumnsError::MissingFeatureColumns))
    );
    assert_eq!(embedding_from_text("label,e0\n").err(), Some(EmbeddingCsvError::NoRows));
    // A record the CSV reader refuses ends the table; the rows before it stay.
    let read = embedding_from_text("label,e0\na,1\nb,2,3\n").unwrap();
    assert_eq!(read.stop, ReadStop::Unreadable);
    assert_eq!(numbers(&read.rows.features), vec![vec![1.0]]);
    assert_eq!(read.rows.class_names, vec!["a"]);
    assert_eq!(
        EmbeddingCsvError::NoRows.message(),
        "embedding CSV contains no rows"
    );
    // Records are checked against the columns the header names.
    let headers = strings(&["e0", "label", "e1"]);
    let records = vec![strings(&["1", "a", "2"]), strings(&["3", "b"]), strings(&["4", "c", "5"])];
    let read = embedding_rows(&headers, &records, false).unwrap();
    assert_eq!(read.stop, ReadStop::ShortRecord(1));
    assert_eq!(read.short_fields, strings(&["3"]));
    assert_eq!(numbers(&read.rows.features), vec![vec![1.0, 2.0]]);
    assert_eq!(read.rows.labels, vec![0]);
    // Only a table read to its end without records is refused as empty.
    let read = embedding_rows(&headers, &Vec::new(), true).unwrap();
    assert_eq!(read.stop, ReadStop::Unreadable);
    assert!(read.rows.features.is_empty());
    assert_eq!(
        embedding_rows(&headers, &Vec::new(), false).err(),
        Some(EmbeddingCsvError::NoRows)
    );
}

#[test]
fn iris_rows_keep_measurements_and_label_species() {
    let text = "sepal_length,sepal_width,petal_length,petal_width,species\n\
                5.1,3.5,1.4,0.2,setosa\n\
                7.0,3.2,4.7,1.4,versicolor\n\
                4.9,3.0,1.4,0.2,setosa\n";
    let read = iris_from_text(text);
    assert_eq!(read.stop, ReadStop::Complete);
    let rows = read.rows;
    assert_eq!(
        numbers(&rows.features),
        vec![vec![5.1, 3.5, 1.4, 0.2], vec![7.0, 3.2, 4.7, 1.4], vec![4.9, 3.0, 1.4, 0.2]]
    );
    assert_eq!(rows.labels, vec![0, 1, 0]);
    assert_eq!(rows.class_names, vec!["setosa", "versicolor"]);

    let read = iris_from_text("a,b,c,d,e\n1,2\n");
    assert_eq!(read.stop, ReadStop::Unreadable);
    assert!(read.rows.features.is_empty());
    let read = iris_from_text("a,b,c\n1,2,3\n");
    assert_eq!(read.stop, ReadStop::ShortRecord(0));
    assert_eq!(read.short_fields, strings(&["1", "2", "3"]));
    let records = vec![strings(&["1", "2", "3", "4", "x"]), strings(&["1", "2"])];
    let read = iris_rows(&records, false);
    assert_eq!(read.stop, ReadStop::ShortRecord(1));
    assert_eq!(read.rows.labels, vec![0]);
    assert_eq!(read.short_fields, strings(&["1", "2"]));
    let read = iris_rows(&records[..1].to_vec(), true);
    assert_eq!(read.stop, ReadStop::Unreadable);
    assert_eq!(read.rows.class_names, vec!["x"]);
    let empty = iris_from_text("");
    assert_eq!(empty.stop, ReadStop::Complete);
    assert!(empty.rows.features.is_empty() && empty.rows.class_names.is_empty());
}
