use nettrain::buffer::RowBuffer;

#[test]
fn test_row_sizes_types() {
    RowBuffer::new_with_row_sizes(0f32, &vec![1, 2, 3]);
    RowBuffer::new_with_row_sizes(0f32, vec![1, 2, 3].as_slice());
    RowBuffer::new_with_row_sizes(0f32, &[1, 2, 3]);
    RowBuffer::new_with_row_sizes(0f32, &[1, 2, 3][..]);
}

#[test]
fn test_basics() {
    let mut buf = RowBuffer::new_with_row_sizes(0.0f32, &vec![1, 0, 10, 2]);

    // check for correct structure
    assert_eq!(4, buf.num_rows());

    assert_eq!(1, buf.get_row(0).len());
    assert_eq!(1, buf.get_row_mut(0).len());
    assert_eq!(1, buf.get_first_row().len());
    assert_eq!(1, buf.get_first_row_mut().len());

    assert_eq!(0, buf.get_row(1).len());
    assert_eq!(0, buf.get_row_mut(1).len());

    assert_eq!(10, buf.get_row(2).len());
    assert_eq!(10, buf.get_row_mut(2).len());

    assert_eq!(2, buf.get_row(3).len());
    assert_eq!(2, buf.get_row_mut(3).len());
    assert_eq!(2, buf.get_last_row().len());
    assert_eq!(2, buf.get_last_row_mut().len());

    // populate data
    for i in 0..buf.num_rows() {
        let row = buf.get_row_mut(i);
        for j in 0..row.len() {
            row[j] = (i * 10 + j) as f32;
        }
    }

    // check values
    for i in 0..buf.num_rows() {
        let row = buf.get_row(i);
        for j in 0..row.len() {
            assert_eq!(row[j], (i * 10 + j) as f32);
        }
    }

    let mut buf2 = buf.clone();
    buf.add(&buf2);

    // check values
    for i in 0..buf.num_rows() {
        let row = buf.get_row(i);
        for j in 0..row.len() {
            assert_eq!(row[j], ((i * 10 + j) * 2) as f32);
        }
    }

    buf.subtract(&buf2);

    // check values
    for i in 0..buf.num_rows() {
        let row = buf.get_row(i);
        for j in 0..row.len() {
            assert_eq!(row[j], (i * 10 + j) as f32);
        }
    }

    buf.add_with_multiplier(&buf2, 2.0);

    // check values
    for i in 0..buf.num_rows() {
        let row = buf.get_row(i);
        for j in 0..row.len() {
            assert_eq!(row[j], ((i * 10 + j) * 3) as f32);
        }
    }

    buf.copy_into(&mut buf2);

    // check values
    for i in 0..buf.num_rows() {
        let row = buf.get_row(i);
        for j in 0..row.len() {
            assert_eq!(row[j], ((i * 10 + j) * 3) as f32);
        }
    }
    for i in 0..buf2.num_rows() {
        let row = buf2.get_row(i);
        for j in 0..row.len() {
            assert_eq!(row[j], ((i * 10 + j) * 3) as f32);
        }
    }
}

#[test]
fn test_get_first_last_rows() {
    let mut buf = RowBuffer::new_with_row_sizes(0.0f32, &vec![15, 0, 8]);
    for i in 0..buf.buffer_len() {
        buf.get_buffer_mut()[i] = i as f32;
    }
    let first = buf.get_first_row();
    let last = buf.get_last_row();
    assert_eq!(first.len(), 15);
    assert_eq!(last.len(), 8);
    assert_eq!(first, &[0., 1., 2., 3., 4., 5., 6., 7., 8., 9., 10., 11., 12., 13., 14.]);
    assert_eq!(last, &[15., 16., 17., 18., 19., 20., 21., 22.]);
}

#[test]
fn arena_rows_have_the_sizes_it_was_built_with() {
    let sizes: Vec<usize> = vec![3, 0, 7, 1, 1, 12];
    let buf = RowBuffer::new_with_row_sizes(7i64, &sizes);
    assert_eq!(buf.num_rows(), sizes.len());
    assert_eq!(buf.buffer_len(), 24);
    for (i, size) in sizes.iter().enumerate() {
        assert_eq!(buf.get_row(i).len(), *size);
        assert!(buf.get_row(i).iter().all(|v| *v == 7));
    }
    assert_eq!(buf.get_buffer(), vec![7i64; 24].as_slice());
}

#[test]
fn arena_of_one_row_is_first_and_last() {
    let mut buf = RowBuffer::new_with_row_sizes(1u8, &[4]);
    assert_eq!(buf.num_rows(), 1);
    buf.get_last_row_mut()[3] = 9;
    assert_eq!(buf.get_first_row(), &[1, 1, 1, 9]);
}

#[test]
fn split_rows_gives_two_rows_in_the_order_asked_for() {
    let mut buf = RowBuffer::new_with_row_sizes(0i32, &[2, 3, 1, 2]);
    for i in 0..buf.buffer_len() {
        buf.get_buffer_mut()[i] = i as i32;
    }
    {
        let (a, b) = buf.split_rows(1, 3);
        assert_eq!(a, &[2, 3, 4]);
        assert_eq!(b, &[6, 7]);
        a[0] = 20;
        b[1] = 70;
    }
    {
        let (a, b) = buf.split_rows(3, 0);
        assert_eq!(a, &[6, 70]);
        assert_eq!(b, &[0, 1]);
        a[0] = 60;
        b[0] = -1;
    }
    assert_eq!(buf.get_buffer(), &[-1, 1, 20, 3, 4, 5, 60, 70]);
    assert_eq!(buf.num_rows(), 4);
    assert_eq!(buf.get_row(2), &[5]);
}

#[test]
fn add_then_subtract_restores_an_arena() {
    let mut a = RowBuffer::new_with_row_sizes(0i64, &[2, 2]);
    let mut b = RowBuffer::new_with_row_sizes(0i64, &[1, 3]);
    for i in 0..4 {
        a.get_buffer_mut()[i] = 10 * i as i64 - 5;
        b.get_buffer_mut()[i] = 3 - i as i64;
    }
    let before = a.clone();
    a.add(&b);
    assert_eq!(a.get_buffer(), &[-2, 7, 16, 25]);
    a.subtract(&b);
    assert_eq!(a.get_buffer(), before.get_buffer());
    a.add_with_multiplier(&b, 2);
    assert_eq!(a.get_buffer(), &[1, 9, 17, 25]);
    a.subtract(&b);
    a.subtract(&b);
    assert_eq!(a.get_buffer(), before.get_buffer());
    assert_eq!(a.get_row(0).len(), 2);
}

#[test]
fn reset_and_copy_keep_the_rows() {
    let mut a = RowBuffer::new_with_row_sizes(1.5f32, &[2, 1]);
    let mut b = RowBuffer::new_with_row_sizes(0.0f32, &[1, 2]);
    a.get_row_mut(1)[0] = 4.0;
    a.copy_into(&mut b);
    assert_eq!(b.get_row(0), &[1.5]);
    assert_eq!(b.get_row(1), &[1.5, 4.0]);
    a.reset_to(-1.0);
    assert_eq!(a.get_buffer(), &[-1.0, -1.0, -1.0]);
    assert_eq!(a.get_row(0).len(), 2);
    assert_eq!(b.get_buffer(), &[1.5, 1.5, 4.0]);
}

#[test]
fn a_clone_is_independent_of_its_source() {
    let mut a = RowBuffer::new_with_row_sizes(2u32, &[1, 1]);
    let b = a.clone();
    a.get_row_mut(0)[0] = 5;
    assert_eq!(a.get_buffer(), &[5, 2]);
    assert_eq!(b.get_buffer(), &[2, 2]);
    assert_eq!(b.num_rows(), 2);
}

#[test]
fn an_arena_without_rows_cannot_be_built() {
    let none: Vec<usize> = Vec::new();
    assert!(RowBuffer::try_new_with_row_sizes(0f32, &none).is_none());
    assert!(RowBuffer::try_new_with_row_sizes(0u8, &[usize::MAX, 1]).is_none());
    assert!(RowBuffer::try_new_with_row_sizes(0u8, &[1, usize::MAX, 1]).is_none());
    let built = RowBuffer::try_new_with_row_sizes(4u8, &[0]).unwrap();
    assert_eq!(built.num_rows(), 1);
    assert_eq!(built.buffer_len(), 0);
    let built = RowBuffer::try_new_with_row_sizes(4u8, &[2, 0, 1]).unwrap();
    assert_eq!(built.num_rows(), 3);
    assert_eq!(built.get_buffer(), &[4, 4, 4]);
    assert_eq!(built.get_row(2), &[4]);
}
