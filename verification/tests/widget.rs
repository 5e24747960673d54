//! Sizing of inspection-UI text widgets.

use antigen_core::widget::FloatWidget;

#[test]
fn size_fits_the_text_when_the_area_is_wide_enough() {
    let w = FloatWidget::from(b"3.14".to_vec());
    assert_eq!(w.size_complex(10, 5), (4, 1));
}

#[test]
fn size_is_clipped_to_the_area_width() {
    let w = FloatWidget::from(b"123.456789".to_vec());
    assert_eq!(w.size_complex(6, 3), (6, 1));
}

#[test]
fn size_collapses_in_an_empty_area() {
    let w = FloatWidget::from(b"0.5".to_vec());
    assert_eq!(w.size_complex(0, 0), (0, 0));
    assert_eq!(w.size_complex(8, 0), (3, 0));
}

#[test]
fn empty_text_occupies_no_columns() {
    let w = FloatWidget::from(Vec::new());
    assert_eq!(w.size_complex(8, 2), (0, 1));
}
