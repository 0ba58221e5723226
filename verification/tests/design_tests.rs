use rengrave::design::{DesignError, VectorDocument};

type Circle = (f64, f64, f64);

#[test]
fn objects_receive_stable_ids_counting_from_one() {
    let mut document: VectorDocument<Circle> = VectorDocument::default();
    assert!(document.is_empty());
    let first = document.add_object((0.0, 0.0, 10.0));
    let second = document.add_object((5.0, 0.0, 4.0));
    assert_eq!(first.get(), 1);
    assert_eq!(second.get(), 2);
    assert!(!document.is_empty());
    assert_eq!(document.object(first).map(|o| o.geometry), Some((0.0, 0.0, 10.0)));
    assert_eq!(document.object(second).map(|o| o.geometry), Some((5.0, 0.0, 4.0)));
}

#[test]
fn removing_an_object_preserves_other_ids_and_future_id_allocation() {
    let mut document: VectorDocument<Circle> = VectorDocument::default();
    let first = document.add_object((0.0, 0.0, 5.0));
    let second = document.add_object((10.0, 0.0, 5.0));

    assert!(document.remove_object(first));
    assert!(!document.remove_object(first));
    assert_eq!(document.objects().len(), 1);
    assert_eq!(document.objects()[0].id, second);
    assert!(document.object(first).is_none());
    assert_eq!(document.add_object((20.0, 0.0, 5.0)).get(), 3);
}

#[test]
fn updating_an_object_preserves_identity() {
    let mut document: VectorDocument<Circle> = VectorDocument::new();
    let id = document.add_object((0.0, 0.0, 5.0));
    let other = document.add_object((1.0, 1.0, 1.0));
    assert_eq!(document.update_object(id, (12.0, -3.0, 8.0)), Ok(()));
    let object = document.object(id).expect("updated object");
    assert_eq!(object.id, id);
    assert_eq!(object.geometry, (12.0, -3.0, 8.0));
    assert_eq!(document.object(other).map(|o| o.geometry), Some((1.0, 1.0, 1.0)));
    assert_eq!(document.objects().len(), 2);
}

#[test]
fn updating_a_missing_object_reports_its_id() {
    let mut document: VectorDocument<Circle> = VectorDocument::new();
    let id = document.add_object((0.0, 0.0, 5.0));
    assert!(document.remove_object(id));
    let error = document.update_object(id, (1.0, 1.0, 1.0)).unwrap_err();
    assert_eq!(error, DesignError::ObjectNotFound(1));
    assert_eq!(error.message(), "design object 1 does not exist");
    assert!(document.is_empty());
}
